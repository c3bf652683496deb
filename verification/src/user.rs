//! The virtual user: one simulated client that replays the corpus, one
//! request at a time.
//!
//! A virtual user sends nothing itself. `poll` says what to do next, the
//! caller does it, and `complete` takes what came of it and hands back the
//! outcome to be recorded.

use crate::corpus::Corpus;
use crate::metrics::{counted, lemma_tally_counts_each_outcome_once, MetricsModel};
use crate::outcome::{Completion, Method, Outcome, OutcomeModel};
use vstd::arithmetic::div_mod::{
    lemma_fundamental_div_mod, lemma_fundamental_div_mod_converse, lemma_mod_twice,
};
use vstd::prelude::*;

verus! {

/// The name of the header that every request carries.
pub const CONTENT_TYPE: &'static str = "Content-Type";

/// The value of that header.
pub const JSON: &'static str = "application/json";

/// How a virtual user picks its next payload.
#[derive(Clone, Copy, Debug, PartialEq, Eq, Structural)]
pub enum Policy {
    /// In the order of the corpus, starting over after its last payload.
    Sequential,
    /// By a number that the caller draws afresh for each request.
    Random,
}

/// A request that a virtual user wants sent.
#[derive(Debug, PartialEq, Eq)]
pub struct RequestPlan {
    /// The virtual user that asks for the request.
    pub user: usize,
    /// The index in the corpus of the payload to send.
    pub payload: usize,
    /// The method of the request.
    pub method: Method,
    /// The path to request.
    pub path: String,
    /// The value of the `Content-Type` header.
    pub content_type: &'static str,
    /// The body: the bytes of the payload.
    pub body: Vec<u8>,
}

/// The mathematical content of a request plan.
pub struct PlanModel {
    pub user: usize,
    pub payload: usize,
    pub method: Method,
    pub path: Seq<char>,
    pub content_type: Seq<char>,
    pub body: Seq<u8>,
}

impl View for RequestPlan {
    type V = PlanModel;

    open spec fn view(&self) -> PlanModel {
        PlanModel {
            user: self.user,
            payload: self.payload,
            method: self.method,
            path: self.path@,
            content_type: self.content_type@,
            body: self.body@,
        }
    }
}

/// What a virtual user asks of its caller.
#[derive(Debug, PartialEq, Eq)]
pub enum Directive {
    /// Send this request, then call `complete` with what came of it.
    Send(RequestPlan),
    /// A request is under way: call `complete` for it first.
    Wait,
    /// The user has exited and will send nothing more.
    Exit,
}

/// The mathematical content of a directive.
pub enum DirectiveModel {
    Send(PlanModel),
    Wait,
    Exit,
}

impl View for Directive {
    type V = DirectiveModel;

    open spec fn view(&self) -> DirectiveModel {
        match self {
            Directive::Send(plan) => DirectiveModel::Send(plan@),
            Directive::Wait => DirectiveModel::Wait,
            Directive::Exit => DirectiveModel::Exit,
        }
    }
}

/// The index of the payload that a user with the given policy and cursor
/// sends next from a corpus of `len` payloads, `draw` being the number drawn
/// for this request.
pub open spec fn chosen(policy: Policy, cursor: usize, len: nat, draw: u64) -> int {
    match policy {
        Policy::Sequential => cursor as int % len as int,
        Policy::Random => draw as int % len as int,
    }
}

/// The mathematical content of a virtual user.
pub struct UserModel {
    /// The number that tells this user from the others.
    pub id: usize,
    pub policy: Policy,
    /// The path that this user requests.
    pub target: Seq<char>,
    /// Under the sequential policy, the index of the payload to send next.
    pub cursor: usize,
    /// The index of the payload of the request that is under way, if one is.
    pub in_flight: Option<usize>,
    /// Whether the user has exited.
    pub exited: bool,
}

impl UserModel {
    /// A user that has sent nothing yet.
    pub open spec fn fresh(id: usize, policy: Policy, target: Seq<char>) -> UserModel {
        UserModel { id, policy, target, cursor: 0, in_flight: None, exited: false }
    }

    /// Whether the user may send a request now: it has not exited, has none
    /// under way, and is not told to stop.
    pub open spec fn sends(self, stop: bool) -> bool {
        !self.exited && self.in_flight is None && !stop
    }

    /// The request that the user sends next.
    pub open spec fn plan(self, corpus: Seq<Seq<u8>>, draw: u64) -> PlanModel {
        let index = chosen(self.policy, self.cursor, corpus.len(), draw);
        PlanModel {
            user: self.id,
            payload: index as usize,
            method: Method::Put,
            path: self.target,
            content_type: JSON@,
            body: corpus[index],
        }
    }

    /// What the user asks of its caller when polled.
    pub open spec fn directive(
        self,
        corpus: Seq<Seq<u8>>,
        stop: bool,
        draw: u64,
    ) -> DirectiveModel {
        if self.sends(stop) {
            DirectiveModel::Send(self.plan(corpus, draw))
        } else if !self.exited && self.in_flight is Some {
            DirectiveModel::Wait
        } else {
            DirectiveModel::Exit
        }
    }

    /// The user after it was polled.
    pub open spec fn polled(self, corpus: Seq<Seq<u8>>, stop: bool, draw: u64) -> UserModel {
        if self.sends(stop) {
            let index = chosen(self.policy, self.cursor, corpus.len(), draw);
            UserModel {
                cursor: match self.policy {
                    Policy::Sequential => if index + 1 < corpus.len() {
                        (index + 1) as usize
                    } else {
                        0
                    },
                    Policy::Random => self.cursor,
                },
                in_flight: Some(index as usize),
                ..self
            }
        } else if !self.exited && self.in_flight is Some {
            self
        } else {
            UserModel { exited: true, ..self }
        }
    }

    /// The outcome of the request that is under way, given how it ended;
    /// none if no request is under way.
    pub open spec fn outcome(
        self,
        completion: Completion,
        latency_ms: u64,
        timestamp_ms: u64,
    ) -> Option<OutcomeModel> {
        match self.in_flight {
            Some(payload) => Some(
                OutcomeModel {
                    user: self.id,
                    payload,
                    path: self.target,
                    method: Method::Put,
                    completion,
                    latency_ms,
                    timestamp_ms,
                },
            ),
            None => None,
        }
    }

    /// The user after the request that was under way has ended, in whatever
    /// way: it is ready for the next one.
    pub open spec fn completed(self) -> UserModel {
        UserModel { in_flight: None, ..self }
    }
}

/// One simulated client.
#[derive(Debug)]
pub struct VirtualUser {
    id: usize,
    policy: Policy,
    target: String,
    cursor: usize,
    in_flight: Option<usize>,
    exited: bool,
}

impl View for VirtualUser {
    type V = UserModel;

    closed spec fn view(&self) -> UserModel {
        UserModel {
            id: self.id,
            policy: self.policy,
            target: self.target@,
            cursor: self.cursor,
            in_flight: self.in_flight,
            exited: self.exited,
        }
    }
}

impl VirtualUser {
    #[verifier::type_invariant]
    spec fn exits_with_nothing_under_way(self) -> bool {
        self.exited ==> self.in_flight is None
    }

    /// A user that has sent nothing yet and will request `target`.
    pub fn new(id: usize, policy: Policy, target: String) -> (user: VirtualUser)
        ensures
            user@ == UserModel::fresh(id, policy, target@),
    {
        VirtualUser { id, policy, target, cursor: 0, in_flight: None, exited: false }
    }

    /// The number that tells this user from the others.
    pub fn id(&self) -> (id: usize)
        ensures
            id == self@.id,
    {
        self.id
    }

    /// The index of the payload of the request that is under way, if one is.
    /// A user that has exited has none.
    pub fn in_flight(&self) -> (payload: Option<usize>)
        ensures
            payload == self@.in_flight,
            self@.exited ==> payload is None,
    {
        proof {
            use_type_invariant(self);
        }
        self.in_flight
    }

    /// Whether the user has exited, which it does only with no request
    /// under way.
    pub fn has_exited(&self) -> (exited: bool)
        ensures
            exited == self@.exited,
            exited ==> self@.in_flight is None,
    {
        proof {
            use_type_invariant(self);
        }
        self.exited
    }

    /// Says what to do next. `stop` tells whether the run has been told to
    /// stop; `draw` is a number drawn for this call, which only the random
    /// policy looks at.
    ///
    /// A user that is told to stop exits, but only once the request that is
    /// under way has been completed.
    pub fn poll(&mut self, corpus: &Corpus, stop: bool, draw: u64) -> (directive: Directive)
        ensures
            directive@ == old(self)@.directive(corpus@, stop, draw),
            final(self)@ == old(self)@.polled(corpus@, stop, draw),
    {
        if self.exited {
            return Directive::Exit;
        }
        if self.in_flight.is_some() {
            return Directive::Wait;
        }
        if stop {
            self.exited = true;
            return Directive::Exit;
        }
        let position: u64 = match self.policy {
            Policy::Sequential => self.cursor as u64,
            Policy::Random => draw,
        };
        let (index, payload) = corpus.wrapped(position);
        let body: Vec<u8> = payload.clone();
        let len = corpus.len();
        match self.policy {
            Policy::Sequential => {
                self.cursor = if index < len - 1 {
                    index + 1
                } else {
                    0
                };
            },
            Policy::Random => {},
        }
        self.in_flight = Some(index);
        Directive::Send(
            RequestPlan {
                user: self.id,
                payload: index,
                method: Method::Put,
                path: self.target.clone(),
                content_type: JSON,
                body,
            },
        )
    }

    /// Takes how the request that is under way ended, and hands back its
    /// outcome. The user is then ready for its next request, whether this one
    /// succeeded or failed. Where no request is under way, nothing changes
    /// and there is no outcome.
    pub fn complete(
        &mut self,
        completion: Completion,
        latency_ms: u64,
        timestamp_ms: u64,
    ) -> (outcome: Option<Outcome>)
        ensures
            match outcome {
                Some(outcome) => Some(outcome@) == old(self)@.outcome(
                    completion,
                    latency_ms,
                    timestamp_ms,
                ),
                None => old(self)@.outcome(completion, latency_ms, timestamp_ms) is None,
            },
            final(self)@ == old(self)@.completed(),
    {
        match self.in_flight {
            Some(payload) => {
                self.in_flight = None;
                Some(
                    Outcome {
                        user: self.id,
                        payload,
                        path: self.target.clone(),
                        method: Method::Put,
                        completion,
                        latency_ms,
                        timestamp_ms,
                    },
                )
            },
            None => None,
        }
    }
}

/// What can happen to a virtual user.
pub enum UserEvent {
    /// It is polled.
    Poll { stop: bool, draw: u64 },
    /// It is told how a request ended.
    Completed { completion: Completion, latency_ms: u64, timestamp_ms: u64 },
}

/// What a virtual user has come to after a sequence of events.
pub struct Session {
    /// The user as it now is.
    pub user: UserModel,
    /// The requests it asked to have sent, in their order.
    pub sent: Seq<PlanModel>,
    /// The outcomes it handed back, in their order.
    pub outcomes: Seq<OutcomeModel>,
}

/// The session of `user` over `corpus` when `events` happen to it one after
/// the other: each poll and each completion does to the user, and hands
/// back, what `poll` and `complete` do.
pub open spec fn session(user: UserModel, corpus: Seq<Seq<u8>>, events: Seq<UserEvent>) -> Session
    decreases events.len(),
{
    if events.len() == 0 {
        Session { user, sent: Seq::empty(), outcomes: Seq::empty() }
    } else {
        let before = session(user, corpus, events.drop_last());
        match events.last() {
            UserEvent::Poll { stop, draw } => Session {
                user: before.user.polled(corpus, stop, draw),
                sent: match before.user.directive(corpus, stop, draw) {
                    DirectiveModel::Send(plan) => before.sent.push(plan),
                    _ => before.sent,
                },
                outcomes: before.outcomes,
            },
            UserEvent::Completed { completion, latency_ms, timestamp_ms } => Session {
                user: before.user.completed(),
                sent: before.sent,
                outcomes: match before.user.outcome(completion, latency_ms, timestamp_ms) {
                    Some(outcome) => before.outcomes.push(outcome),
                    None => before.outcomes,
                },
            },
        }
    }
}

/// Counting on by one goes one step round the cycle of `len` places.
pub proof fn lemma_next_in_cycle(n: int, len: int)
    requires
        n >= 0,
        len > 0,
    ensures
        (n + 1) % len == if n % len + 1 < len {
            n % len + 1
        } else {
            0
        },
{
    let q = n / len;
    let r = n % len;
    lemma_fundamental_div_mod(n, len);
    assert(n == q * len + r) by (nonlinear_arith)
        requires
            n == len * q + r,
    ;
    if r + 1 < len {
        lemma_fundamental_div_mod_converse(n + 1, len, q, r + 1);
    } else {
        assert(n + 1 == (q + 1) * len + 0) by (nonlinear_arith)
            requires
                n == q * len + r,
                r + 1 == len,
        ;
        lemma_fundamental_div_mod_converse(n + 1, len, q + 1, 0);
    }
}

/// Every request is accounted for. Whatever happens to a user that starts
/// afresh, in whatever order:
/// - it has handed back one outcome for each request it asked for, but for
///   the one that is under way, and it exits only with none under way;
/// - each outcome names this user, its path, and the payload of the request
///   that it belongs to;
/// - each request is a PUT of a payload of the corpus, as JSON, to the
///   user's path;
/// - under the sequential policy the requests go through the corpus in its
///   order, again and again.
pub proof fn lemma_session_accounts_for_every_request(
    id: usize,
    policy: Policy,
    target: Seq<char>,
    corpus: Seq<Seq<u8>>,
    events: Seq<UserEvent>,
)
    requires
        0 < corpus.len() <= usize::MAX,
    ensures
        ({
            let now = session(UserModel::fresh(id, policy, target), corpus, events);
            &&& now.user.id == id && now.user.policy == policy && now.user.target == target
            &&& now.sent.len() == now.outcomes.len() + if now.user.in_flight is Some {
                1nat
            } else {
                0nat
            }
            &&& now.user.exited ==> now.user.in_flight is None
            &&& now.user.in_flight matches Some(payload) ==> payload == now.sent.last().payload
            &&& forall|i: int|
                0 <= i < now.outcomes.len() ==> {
                    &&& (#[trigger] now.outcomes[i]).user == id
                    &&& now.outcomes[i].path == target
                    &&& now.outcomes[i].method == Method::Put
                    &&& now.outcomes[i].payload == now.sent[i].payload
                }
            &&& forall|i: int|
                0 <= i < now.sent.len() ==> {
                    &&& (#[trigger] now.sent[i]).user == id
                    &&& now.sent[i].method == Method::Put
                    &&& now.sent[i].path == target
                    &&& now.sent[i].content_type == JSON@
                    &&& now.sent[i].payload < corpus.len()
                    &&& now.sent[i].body == corpus[now.sent[i].payload as int]
                }
            &&& policy == Policy::Sequential ==> {
                &&& now.user.cursor == now.sent.len() % corpus.len()
                &&& forall|i: int|
                    0 <= i < now.sent.len() ==> (#[trigger] now.sent[i]).payload == i % (
                    corpus.len() as int)
            }
        }),
    decreases events.len(),
{
    if events.len() > 0 {
        lemma_session_accounts_for_every_request(id, policy, target, corpus, events.drop_last());
        let before = session(UserModel::fresh(id, policy, target), corpus, events.drop_last());
        if policy == Policy::Sequential {
            lemma_next_in_cycle(before.sent.len() as int, corpus.len() as int);
            lemma_mod_twice(before.sent.len() as int, corpus.len() as int);
        }
    }
}

/// No outcome is dropped and none is counted twice: once a user has no
/// request under way, as when it has exited, the metrics of the outcomes it
/// handed back count as many as it asked requests for.
pub proof fn lemma_recorded_outcomes_match_attempts(
    id: usize,
    policy: Policy,
    target: Seq<char>,
    corpus: Seq<Seq<u8>>,
    events: Seq<UserEvent>,
)
    requires
        0 < corpus.len() <= usize::MAX,
        session(UserModel::fresh(id, policy, target), corpus, events).user.in_flight is None,
    ensures
        ({
            let now = session(UserModel::fresh(id, policy, target), corpus, events);
            &&& now.outcomes.len() == now.sent.len()
            &&& MetricsModel::tally(now.outcomes).total() == counted(now.sent.len())
        }),
{
    let now = session(UserModel::fresh(id, policy, target), corpus, events);
    lemma_session_accounts_for_every_request(id, policy, target, corpus, events);
    lemma_tally_counts_each_outcome_once(now.outcomes);
}

} // verus!
