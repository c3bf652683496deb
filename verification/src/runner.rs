//! The scenario runner: the one controller of a run. It owns the pool of
//! virtual users, starts them at the configured rate, tells them to stop,
//! and hands the outcome of each completed request to its aggregator.
//!
//! The runner does nothing by itself. `step` takes what happened to the run
//! and says what the caller is to do; `poll` and `complete` stand between
//! the caller and one virtual user of the pool.

use crate::corpus::Corpus;
use crate::metrics::{
    counted, lemma_tally_counts_each_outcome_once, AggregateMetrics, Aggregator, MetricsModel,
};
use crate::outcome::{Completion, Method, OutcomeModel};
use crate::user::{
    lemma_next_in_cycle, Directive, DirectiveModel, PlanModel, Policy, UserModel, VirtualUser, JSON,
};
use vstd::arithmetic::div_mod::{lemma_mod_bound, lemma_mod_twice};
use vstd::prelude::*;

verus! {

/// What a run is to do.
#[derive(Clone, Copy, Debug, PartialEq, Eq, Structural)]
pub struct RunConfig {
    /// The target concurrency: how many virtual users to run.
    pub users: usize,
    /// How many further virtual users to start each second, once the first
    /// has been started.
    pub ramp_rate: u64,
    /// For how many milliseconds to hold the target concurrency.
    pub duration_ms: u64,
    /// How each virtual user picks its payloads.
    pub policy: Policy,
}

/// Where a run stands.
#[derive(Clone, Copy, Debug, PartialEq, Eq, Structural)]
pub enum Phase {
    /// Not started.
    Idle,
    /// Virtual users are being started.
    RampingUp,
    /// All virtual users that are to run have been started.
    Steady,
    /// The virtual users are told to stop, and finish their requests.
    RampingDown,
    /// Every virtual user has exited.
    Stopped,
}

/// What can happen to a run.
#[derive(Clone, Copy, Debug, PartialEq, Eq, Structural)]
pub enum Event {
    /// The command to start, given at `now_ms` on the caller's clock.
    Start { now_ms: u64 },
    /// The clock has come to `now_ms`.
    Tick { now_ms: u64 },
    /// The run is told from outside to stop.
    StopSignal,
}

/// What the caller of `step` is to do.
#[derive(Clone, Copy, Debug, PartialEq, Eq, Structural)]
pub enum Command {
    /// Nothing but to wait for the next event.
    Wait,
    /// The pool has grown by `count` virtual users, numbered from `first`
    /// on: begin to poll each of them.
    Spawn { first: usize, count: usize },
    /// The run is over.
    Finish,
}

/// The place of a phase in the order in which a run passes through them.
pub open spec fn rank(phase: Phase) -> int {
    match phase {
        Phase::Idle => 0,
        Phase::RampingUp => 1,
        Phase::Steady => 2,
        Phase::RampingDown => 3,
        Phase::Stopped => 4,
    }
}

/// The milliseconds from `then_ms` to `now_ms`; none if the clock stood at
/// less than `then_ms`.
pub open spec fn since(now_ms: u64, then_ms: u64) -> u64 {
    if now_ms >= then_ms {
        (now_ms - then_ms) as u64
    } else {
        0
    }
}

/// How many virtual users are to have been started once the ramp-up has
/// lasted `elapsed_ms`: one at once and `ramp_rate` more with each full
/// second, up to the target concurrency.
pub open spec fn due(config: RunConfig, elapsed_ms: u64) -> nat {
    let by_rate = 1 + (config.ramp_rate * elapsed_ms) / 1000;
    if by_rate < config.users {
        by_rate as nat
    } else {
        config.users as nat
    }
}

/// Whether every one of `users` has exited.
pub open spec fn all_exited(users: Seq<UserModel>) -> bool {
    forall|user: int| 0 <= user < users.len() ==> (#[trigger] users[user]).exited
}

/// How many of `users` have not exited.
pub open spec fn active_count(users: Seq<UserModel>) -> nat
    decreases users.len(),
{
    if users.len() == 0 {
        0
    } else {
        active_count(users.drop_last()) + if users.last().exited {
            0nat
        } else {
            1nat
        }
    }
}

/// How many of `users` have a request under way.
pub open spec fn in_flight_count(users: Seq<UserModel>) -> nat
    decreases users.len(),
{
    if users.len() == 0 {
        0
    } else {
        in_flight_count(users.drop_last()) + if users.last().in_flight is Some {
            1nat
        } else {
            0nat
        }
    }
}

/// The mathematical content of a runner.
pub struct RunnerModel {
    pub config: RunConfig,
    /// The path that every virtual user requests.
    pub target: Seq<char>,
    pub phase: Phase,
    /// The pool: every virtual user started so far, each at its number.
    pub users: Seq<UserModel>,
    /// When the ramp-up began.
    pub ramp_started_ms: u64,
    /// When the steady phase began.
    pub steady_since_ms: u64,
    /// Whether a stop signal has been taken in.
    pub stop_requested: bool,
    /// The metrics of the outcomes of all requests completed so far.
    pub metrics: MetricsModel,
}

impl RunnerModel {
    /// The runner of a run that has not started.
    pub open spec fn initial(config: RunConfig, target: Seq<char>) -> RunnerModel {
        RunnerModel {
            config,
            target,
            phase: Phase::Idle,
            users: Seq::empty(),
            ramp_started_ms: 0,
            steady_since_ms: 0,
            stop_requested: false,
            metrics: MetricsModel::empty(),
        }
    }

    /// The runner with `count` more users in its pool, each new and numbered
    /// on from those before.
    pub open spec fn with_started(self, count: nat) -> RunnerModel {
        RunnerModel {
            users: self.users + Seq::new(
                count,
                |i: int|
                    UserModel::fresh(
                        (self.users.len() + i) as usize,
                        self.config.policy,
                        self.target,
                    ),
            ),
            ..self
        }
    }

    /// How many users a ramp-up that has come to `now_ms` still has to start.
    pub open spec fn to_start(self, now_ms: u64) -> nat {
        let wanted = due(self.config, since(now_ms, self.ramp_started_ms));
        if wanted > self.users.len() {
            (wanted - self.users.len()) as nat
        } else {
            0
        }
    }

    /// The command that tells of `count` users started after those of `self`.
    pub open spec fn spawn(self, count: nat) -> Command {
        if count > 0 {
            Command::Spawn { first: self.users.len() as usize, count: count as usize }
        } else {
            Command::Wait
        }
    }

    /// Whether the virtual users are told to stop.
    pub open spec fn stopping(self) -> bool {
        self.phase == Phase::RampingDown || self.phase == Phase::Stopped
    }

    /// The runner after `event`, and what the caller is to do.
    ///
    /// - Idle: the start command begins the ramp-up and starts the first
    ///   user.
    /// - RampingUp: each tick starts the users that are due; the tick that
    ///   starts the last one begins the steady phase. A stop signal ends the
    ///   ramp-up with the users started so far.
    /// - Steady: a stop signal, or the tick at which the configured duration
    ///   has passed or that follows a stop signal during the ramp-up, begins
    ///   the ramp-down.
    /// - RampingDown: the tick that finds every user exited ends the run.
    /// - Stopped: nothing happens any more.
    ///
    /// An event that a phase has no use for changes nothing.
    pub open spec fn step(self, event: Event) -> (RunnerModel, Command) {
        match (self.phase, event) {
            (Phase::Idle, Event::Start { now_ms }) => {
                let begun = RunnerModel {
                    phase: Phase::RampingUp,
                    ramp_started_ms: now_ms,
                    ..self
                };
                let count = begun.to_start(now_ms);
                (begun.with_started(count), begun.spawn(count))
            },
            (Phase::RampingUp, Event::Tick { now_ms }) => {
                let count = self.to_start(now_ms);
                let grown = self.with_started(count);
                if grown.users.len() >= self.config.users {
                    (
                        RunnerModel { phase: Phase::Steady, steady_since_ms: now_ms, ..grown },
                        self.spawn(count),
                    )
                } else {
                    (grown, self.spawn(count))
                }
            },
            (Phase::RampingUp, Event::StopSignal) => (
                RunnerModel { phase: Phase::Steady, stop_requested: true, ..self },
                Command::Wait,
            ),
            (Phase::Steady, Event::Tick { now_ms }) => if self.stop_requested || since(
                now_ms,
                self.steady_since_ms,
            ) >= self.config.duration_ms {
                (RunnerModel { phase: Phase::RampingDown, ..self }, Command::Wait)
            } else {
                (self, Command::Wait)
            },
            (Phase::Steady, Event::StopSignal) => (
                RunnerModel { phase: Phase::RampingDown, stop_requested: true, ..self },
                Command::Wait,
            ),
            (Phase::RampingDown, Event::Tick { now_ms }) => if all_exited(self.users) {
                (RunnerModel { phase: Phase::Stopped, ..self }, Command::Finish)
            } else {
                (self, Command::Wait)
            },
            _ => (self, Command::Wait),
        }
    }

    /// What the user numbered `user` asks of the caller when polled: what
    /// that user says, told to stop if and only if the run is in its
    /// ramp-down or over. A number that no user of the pool has is told to
    /// exit.
    pub open spec fn directive(
        self,
        user: usize,
        corpus: Seq<Seq<u8>>,
        draw: u64,
    ) -> DirectiveModel {
        if user < self.users.len() {
            self.users[user as int].directive(corpus, self.stopping(), draw)
        } else {
            DirectiveModel::Exit
        }
    }

    /// The runner after the user numbered `user` was polled.
    pub open spec fn polled(self, user: usize, corpus: Seq<Seq<u8>>, draw: u64) -> RunnerModel {
        if user < self.users.len() {
            RunnerModel {
                users: self.users.update(
                    user as int,
                    self.users[user as int].polled(corpus, self.stopping(), draw),
                ),
                ..self
            }
        } else {
            self
        }
    }

    /// Whether the user numbered `user` has a request under way.
    pub open spec fn awaits(self, user: usize) -> bool {
        user < self.users.len() && self.users[user as int].in_flight is Some
    }

    /// The runner after the request of the user numbered `user` has ended as
    /// given: the user is ready for its next request, and the outcome is
    /// recorded. Where that user has no request under way, nothing changes.
    pub open spec fn completed(
        self,
        user: usize,
        completion: Completion,
        latency_ms: u64,
        timestamp_ms: u64,
    ) -> RunnerModel {
        if self.awaits(user) {
            RunnerModel {
                users: self.users.update(user as int, self.users[user as int].completed()),
                metrics: self.metrics.record(
                    self.users[user as int].outcome(completion, latency_ms, timestamp_ms).unwrap(),
                ),
                ..self
            }
        } else {
            self
        }
    }

    /// What holds of a runner at every moment of a run:
    /// - no more users have been started than the target concurrency, and
    ///   before the start none;
    /// - each user of the pool has its place in the pool as its number, and
    ///   the policy and the path of the run;
    /// - in the steady phase the target concurrency has been reached, unless
    ///   a stop signal ended the ramp-up;
    /// - a user exits only once the run has begun its ramp-down, and only
    ///   with no request under way;
    /// - once the run has stopped, every user has exited.
    pub open spec fn valid(self) -> bool {
        &&& self.users.len() <= self.config.users
        &&& self.phase == Phase::Idle ==> self.users.len() == 0
        &&& (self.phase == Phase::Idle || self.phase == Phase::RampingUp) ==> !self.stop_requested
        &&& self.phase == Phase::Steady && !self.stop_requested ==> self.users.len()
            == self.config.users
        &&& self.phase == Phase::Stopped ==> all_exited(self.users)
        &&& forall|user: int|
            0 <= user < self.users.len() ==> {
                &&& (#[trigger] self.users[user]).id == user
                &&& self.users[user].policy == self.config.policy
                &&& self.users[user].target == self.target
                &&& self.users[user].exited ==> self.stopping()
                &&& self.users[user].exited ==> self.users[user].in_flight is None
            }
    }
}

/// The milliseconds from `then_ms` to `now_ms`; none if the clock stood at
/// less than `then_ms`.
pub fn elapsed(now_ms: u64, then_ms: u64) -> (ms: u64)
    ensures
        ms == since(now_ms, then_ms),
{
    if now_ms >= then_ms {
        now_ms - then_ms
    } else {
        0
    }
}

/// How many virtual users are to have been started once the ramp-up has
/// lasted `elapsed_ms`.
pub fn users_due(config: &RunConfig, elapsed_ms: u64) -> (users: usize)
    ensures
        users == due(*config, elapsed_ms),
        users <= config.users,
{
    assert(config.ramp_rate * elapsed_ms <= 0xffff_ffff_ffff_ffff * 0xffff_ffff_ffff_ffff)
        by (nonlinear_arith)
        requires
            0 <= config.ramp_rate <= 0xffff_ffff_ffff_ffff,
            0 <= elapsed_ms <= 0xffff_ffff_ffff_ffff,
    ;
    let product: u128 = (config.ramp_rate as u128) * (elapsed_ms as u128);
    let by_rate: u128 = 1 + product / 1000;
    if by_rate < config.users as u128 {
        by_rate as usize
    } else {
        config.users
    }
}

/// The views of the users in `pool`, each at its place.
pub open spec fn pool_views(pool: Seq<VirtualUser>) -> Seq<UserModel> {
    Seq::new(pool.len(), |i: int| pool[i]@)
}

/// The controller of one run, with its pool of virtual users and its
/// aggregator.
#[derive(Debug)]
pub struct Runner {
    config: RunConfig,
    target: String,
    phase: Phase,
    users: Vec<VirtualUser>,
    ramp_started_ms: u64,
    steady_since_ms: u64,
    stop_requested: bool,
    aggregator: Aggregator,
}

impl View for Runner {
    type V = RunnerModel;

    closed spec fn view(&self) -> RunnerModel {
        RunnerModel {
            config: self.config,
            target: self.target@,
            phase: self.phase,
            users: pool_views(self.users@),
            ramp_started_ms: self.ramp_started_ms,
            steady_since_ms: self.steady_since_ms,
            stop_requested: self.stop_requested,
            metrics: self.aggregator@,
        }
    }
}

impl Runner {
    /// The runner of a run that has not started, whose virtual users will
    /// request `target`.
    pub fn new(config: RunConfig, target: String) -> (runner: Runner)
        ensures
            runner@ == RunnerModel::initial(config, target@),
            runner@.valid(),
    {
        let runner = Runner {
            config,
            target,
            phase: Phase::Idle,
            users: Vec::new(),
            ramp_started_ms: 0,
            steady_since_ms: 0,
            stop_requested: false,
            aggregator: Aggregator::new(),
        };
        assert(runner@.users =~= Seq::<UserModel>::empty());
        runner
    }

    /// Where the run stands.
    pub fn phase(&self) -> (phase: Phase)
        ensures
            phase == self@.phase,
    {
        self.phase
    }

    /// What the run is to do.
    pub fn config(&self) -> (config: RunConfig)
        ensures
            config == self@.config,
    {
        self.config
    }

    /// Whether the virtual users are told to stop.
    pub fn is_stopping(&self) -> (stopping: bool)
        ensures
            stopping == self@.stopping(),
    {
        match self.phase {
            Phase::RampingDown => true,
            Phase::Stopped => true,
            _ => false,
        }
    }

    /// How many virtual users have been started so far.
    pub fn started(&self) -> (users: usize)
        ensures
            users == self@.users.len(),
    {
        self.users.len()
    }

    /// How many virtual users have been started and have not exited.
    pub fn active(&self) -> (users: usize)
        ensures
            users == active_count(self@.users),
    {
        let mut users: usize = 0;
        let mut i: usize = 0;
        while i < self.users.len()
            invariant
                i <= self.users@.len(),
                users == active_count(self@.users.take(i as int)),
                users <= i,
            decreases self.users@.len() - i,
        {
            assert(self@.users.take(i as int + 1).drop_last() == self@.users.take(i as int));
            if !self.users[i].has_exited() {
                users += 1;
            }
            i += 1;
        }
        assert(self@.users.take(i as int) == self@.users);
        users
    }

    /// Whether every user of the pool has exited.
    fn none_running(&self) -> (none: bool)
        ensures
            none == all_exited(self@.users),
    {
        let mut i: usize = 0;
        while i < self.users.len()
            invariant
                i <= self.users@.len(),
                forall|user: int| 0 <= user < i ==> (#[trigger] self@.users[user]).exited,
            decreases self.users@.len() - i,
        {
            if !self.users[i].has_exited() {
                assert(!self@.users[i as int].exited);
                return false;
            }
            i += 1;
        }
        true
    }

    /// Adds `count` new users to the pool.
    fn start_users(&mut self, count: usize)
        requires
            old(self).users@.len() + count <= usize::MAX,
        ensures
            final(self)@ == old(self)@.with_started(count as nat),
    {
        let mut done: usize = 0;
        while done < count
            invariant
                done <= count,
                old(self).users@.len() + count <= usize::MAX,
                self@ == old(self)@.with_started(done as nat),
            decreases count - done,
        {
            let ghost before = self.users@;
            let id = self.users.len();
            let user = VirtualUser::new(id, self.config.policy, self.target.clone());
            self.users.push(user);
            done += 1;
            proof {
                let grown = old(self)@.with_started(done as nat).users;
                assert(pool_views(before) == old(self)@.with_started((done - 1) as nat).users);
                assert forall|i: int| 0 <= i < grown.len() implies pool_views(self.users@)[i]
                    == grown[i] by {
                    if i < before.len() {
                        assert(pool_views(self.users@)[i] == pool_views(before)[i]);
                    }
                }
                assert(self@.users =~= grown);
            }
        }
    }

    /// How many users a ramp-up that has come to `now_ms` still has to start.
    fn users_to_start(&self, now_ms: u64) -> (count: usize)
        ensures
            count == self@.to_start(now_ms),
            self@.users.len() + count <= usize::MAX,
    {
        let wanted = users_due(&self.config, elapsed(now_ms, self.ramp_started_ms));
        if wanted > self.users.len() {
            wanted - self.users.len()
        } else {
            0
        }
    }

    /// Starts the users that are due at `now_ms`.
    fn start_due(&mut self, now_ms: u64) -> (command: Command)
        ensures
            final(self)@ == old(self)@.with_started(old(self)@.to_start(now_ms)),
            command == old(self)@.spawn(old(self)@.to_start(now_ms)),
    {
        let count = self.users_to_start(now_ms);
        let first = self.users.len();
        self.start_users(count);
        if count > 0 {
            Command::Spawn { first, count }
        } else {
            Command::Wait
        }
    }

    /// Takes what happened to the run, and says what the caller is to do.
    pub fn step(&mut self, event: Event) -> (command: Command)
        ensures
            (final(self)@, command) == old(self)@.step(event),
            old(self)@.valid() ==> final(self)@.valid(),
    {
        proof {
            if self@.valid() {
                lemma_step_keeps_valid(self@, event);
            }
        }
        match (self.phase, event) {
            (Phase::Idle, Event::Start { now_ms }) => {
                self.phase = Phase::RampingUp;
                self.ramp_started_ms = now_ms;
                self.start_due(now_ms)
            },
            (Phase::RampingUp, Event::Tick { now_ms }) => {
                let command = self.start_due(now_ms);
                if self.users.len() >= self.config.users {
                    self.phase = Phase::Steady;
                    self.steady_since_ms = now_ms;
                }
                command
            },
            (Phase::RampingUp, Event::StopSignal) => {
                self.phase = Phase::Steady;
                self.stop_requested = true;
                Command::Wait
            },
            (Phase::Steady, Event::Tick { now_ms }) => {
                if self.stop_requested || elapsed(now_ms, self.steady_since_ms)
                    >= self.config.duration_ms {
                    self.phase = Phase::RampingDown;
                }
                Command::Wait
            },
            (Phase::Steady, Event::StopSignal) => {
                self.phase = Phase::RampingDown;
                self.stop_requested = true;
                Command::Wait
            },
            (Phase::RampingDown, Event::Tick { now_ms }) => {
                if self.none_running() {
                    self.phase = Phase::Stopped;
                    Command::Finish
                } else {
                    Command::Wait
                }
            },
            _ => Command::Wait,
        }
    }

    /// Asks the user numbered `user` what to do next. `draw` is a number
    /// drawn for this call, which only the random policy looks at.
    ///
    /// The user is told to stop exactly when the run is in its ramp-down or
    /// over; it then exits, once the request that it has under way has been
    /// completed.
    pub fn poll(&mut self, user: usize, corpus: &Corpus, draw: u64) -> (directive: Directive)
        ensures
            directive@ == old(self)@.directive(user, corpus@, draw),
            final(self)@ == old(self)@.polled(user, corpus@, draw),
            old(self)@.valid() ==> final(self)@.valid(),
    {
        proof {
            if self@.valid() {
                lemma_poll_keeps_valid(self@, user, corpus@, draw);
            }
        }
        if user < self.users.len() {
            let stop = self.is_stopping();
            let polled = &mut self.users[user];
            let directive = polled.poll(corpus, stop, draw);
            assert(self@.users =~= old(self)@.polled(user, corpus@, draw).users);
            directive
        } else {
            Directive::Exit
        }
    }

    /// Takes how the request of the user numbered `user` ended, and records
    /// its outcome. Says whether there was such a request; where there was
    /// none, nothing changes.
    ///
    /// The course of the run stays as it is, whatever the outcome: a failed
    /// request is counted, and the user goes on.
    pub fn complete(
        &mut self,
        user: usize,
        completion: Completion,
        latency_ms: u64,
        timestamp_ms: u64,
    ) -> (recorded: bool)
        ensures
            recorded == old(self)@.awaits(user),
            final(self)@ == old(self)@.completed(user, completion, latency_ms, timestamp_ms),
            old(self)@.valid() ==> final(self)@.valid(),
    {
        proof {
            if self@.valid() {
                lemma_complete_keeps_valid(self@, user, completion, latency_ms, timestamp_ms);
            }
        }
        if user < self.users.len() {
            let completing = &mut self.users[user];
            match completing.complete(completion, latency_ms, timestamp_ms) {
                Some(outcome) => {
                    self.aggregator.record(outcome);
                    assert(self@.users =~= old(self)@.completed(
                        user,
                        completion,
                        latency_ms,
                        timestamp_ms,
                    ).users);
                    true
                },
                None => {
                    assert(self@.users =~= old(self)@.users);
                    false
                },
            }
        } else {
            false
        }
    }

    /// The metrics of every request completed so far. The runner is left as
    /// it is and goes on recording.
    pub fn snapshot(&self) -> (metrics: AggregateMetrics)
        ensures
            metrics@ == self@.metrics,
    {
        self.aggregator.snapshot()
    }
}

/// A step keeps what holds of a runner at every moment of a run, and leaves
/// the metrics and every user of the pool as they are.
pub proof fn lemma_step_keeps_valid(runner: RunnerModel, event: Event)
    requires
        runner.valid(),
    ensures
        runner.step(event).0.valid(),
        runner.step(event).0.config == runner.config,
        runner.step(event).0.target == runner.target,
        runner.step(event).0.metrics == runner.metrics,
        runner.users.len() <= runner.step(event).0.users.len(),
        forall|user: int|
            0 <= user < runner.users.len() ==> #[trigger] runner.step(event).0.users[user]
                == runner.users[user],
{
}

/// A run passes through its phases in their order: a step leaves the phase
/// as it is or moves on to the one that follows, and from Stopped there is
/// no way on.
pub proof fn lemma_phases_in_order(runner: RunnerModel, event: Event)
    ensures
        rank(runner.step(event).0.phase) == rank(runner.phase) || rank(runner.step(event).0.phase)
            == rank(runner.phase) + 1,
        runner.phase == Phase::Stopped ==> runner.step(event).0 == runner,
{
}

/// The commands say what the transitions need:
/// - the run is said to be over exactly when it enters Stopped, which it
///   does only when every user has exited;
/// - users are started only as the ramp-up begins or goes on, each new,
///   numbered on from those started before, and never beyond the target
///   concurrency.
pub proof fn lemma_commands_match_transitions(runner: RunnerModel, event: Event)
    requires
        runner.valid(),
    ensures
        ({
            let (next, command) = runner.step(event);
            &&& command == Command::Finish <==> runner.phase == Phase::RampingDown && next.phase
                == Phase::Stopped
            &&& command == Command::Finish ==> all_exited(next.users)
            &&& command matches Command::Spawn { first, count } ==> {
                &&& runner.phase == Phase::Idle || runner.phase == Phase::RampingUp
                &&& count > 0
                &&& first == runner.users.len()
                &&& next.users.len() == first + count
                &&& next.users.len() <= runner.config.users
                &&& forall|user: int|
                    first <= user < first + count ==> #[trigger] next.users[user]
                        == UserModel::fresh(user as usize, runner.config.policy, runner.target)
            }
            &&& !(command is Spawn) ==> next.users.len() == runner.users.len()
        }),
{
}

/// The run keeps to its schedule:
/// - a tick of the ramp-up brings the pool to the number of users that is
///   due by then, and never shrinks it;
/// - the steady phase ends at the first tick by which it has lasted the
///   configured duration, or at a stop signal, and not before;
/// - the ramp-down ends at the first tick that finds every user exited, and
///   not before.
pub proof fn lemma_run_keeps_to_its_schedule(runner: RunnerModel, now_ms: u64)
    requires
        runner.valid(),
    ensures
        ({
            let next = runner.step(Event::Tick { now_ms }).0;
            let wanted = due(runner.config, since(now_ms, runner.ramp_started_ms));
            &&& runner.phase == Phase::RampingUp ==> next.users.len() == if wanted
                > runner.users.len() {
                wanted
            } else {
                runner.users.len()
            }
            &&& runner.phase == Phase::RampingUp ==> (next.phase == Phase::Steady
                <==> next.users.len() == runner.config.users)
            &&& runner.phase == Phase::Steady ==> (next.phase == Phase::RampingDown
                <==> runner.stop_requested || since(now_ms, runner.steady_since_ms)
                >= runner.config.duration_ms)
            &&& runner.phase == Phase::RampingDown ==> (next.phase == Phase::Stopped
                <==> all_exited(runner.users))
        }),
{
}

/// Polling a user of the pool touches that user alone and leaves the course
/// of the run and the metrics as they are.
///
/// A request is asked for only while the run is not told to stop. Once it
/// is, a user with a request under way is left to wait for it, and a user
/// with none exits: no request is broken off, and none is begun.
pub proof fn lemma_poll_keeps_valid(
    runner: RunnerModel,
    user: usize,
    corpus: Seq<Seq<u8>>,
    draw: u64,
)
    requires
        runner.valid(),
    ensures
        ({
            let next = runner.polled(user, corpus, draw);
            let directive = runner.directive(user, corpus, draw);
            &&& next.valid()
            &&& next.phase == runner.phase
            &&& next.metrics == runner.metrics
            &&& next.users.len() == runner.users.len()
            &&& forall|other: int|
                0 <= other < runner.users.len() && other != user ==> #[trigger] next.users[other]
                    == runner.users[other]
            &&& directive is Send ==> !runner.stopping() && next.awaits(user)
            &&& runner.stopping() && runner.awaits(user) ==> directive is Wait && next.awaits(user)
            &&& runner.stopping() && user < runner.users.len() && !runner.awaits(user)
                ==> directive is Exit && next.users[user as int].exited
        }),
{
}

/// Completing a request touches the user that made it and the metrics
/// alone: whether the request succeeded or failed, the run goes on as
/// before and the user is ready for its next request.
pub proof fn lemma_complete_keeps_valid(
    runner: RunnerModel,
    user: usize,
    completion: Completion,
    latency_ms: u64,
    timestamp_ms: u64,
)
    requires
        runner.valid(),
    ensures
        ({
            let next = runner.completed(user, completion, latency_ms, timestamp_ms);
            &&& next.valid()
            &&& next.phase == runner.phase
            &&& next.users.len() == runner.users.len()
            &&& runner.awaits(user) ==> !next.users[user as int].exited
                && next.users[user as int].in_flight is None
            &&& forall|other: int|
                0 <= other < runner.users.len() && other != user ==> #[trigger] next.users[other]
                    == runner.users[other]
        }),
{
}

/// Changing one user changes the number of requests under way by what
/// that user has under way before and after.
proof fn lemma_in_flight_updated(users: Seq<UserModel>, user: int, changed: UserModel)
    requires
        0 <= user < users.len(),
    ensures
        in_flight_count(users.update(user, changed)) + (if users[user].in_flight is Some {
            1nat
        } else {
            0nat
        }) == in_flight_count(users) + (if changed.in_flight is Some {
            1nat
        } else {
            0nat
        }),
    decreases users.len(),
{
    let after = users.update(user, changed);
    if user == users.len() - 1 {
        assert(after.drop_last() == users.drop_last());
    } else {
        assert(after.drop_last() == users.drop_last().update(user, changed));
        lemma_in_flight_updated(users.drop_last(), user, changed);
    }
}

/// Users with no request under way add none.
proof fn lemma_in_flight_with_new(users: Seq<UserModel>, added: Seq<UserModel>)
    requires
        forall|i: int| 0 <= i < added.len() ==> (#[trigger] added[i]).in_flight is None,
    ensures
        in_flight_count(users + added) == in_flight_count(users),
    decreases added.len(),
{
    if added.len() > 0 {
        assert((users + added).drop_last() == users + added.drop_last());
        lemma_in_flight_with_new(users, added.drop_last());
    }
}

/// Where no user has a request under way, none is under way.
proof fn lemma_none_in_flight(users: Seq<UserModel>)
    requires
        forall|i: int| 0 <= i < users.len() ==> (#[trigger] users[i]).in_flight is None,
    ensures
        in_flight_count(users) == 0,
    decreases users.len(),
{
    if users.len() > 0 {
        lemma_none_in_flight(users.drop_last());
    }
}

/// Whether the payload of the request that `user` has under way, if it has
/// one, is one of `corpus`.
pub open spec fn sends_from(user: UserModel, corpus: Seq<Seq<u8>>) -> bool {
    user.in_flight matches Some(payload) ==> payload < corpus.len()
}

/// What a runner takes in.
pub enum Input {
    /// An event of the run, as `step` takes it.
    Happened(Event),
    /// A poll of a user, as `poll` takes it.
    Polled { user: usize, draw: u64 },
    /// The end of a request, as `complete` takes it.
    Completed { user: usize, completion: Completion, latency_ms: u64, timestamp_ms: u64 },
}

/// What a run has come to.
pub struct Run {
    /// The runner as it now is.
    pub runner: RunnerModel,
    /// The requests that its users asked to have sent, in their order.
    pub sent: Seq<PlanModel>,
    /// The outcomes that it recorded, in their order.
    pub outcomes: Seq<OutcomeModel>,
}

impl Run {
    /// A run that has not started.
    pub open spec fn start(config: RunConfig, target: Seq<char>) -> Run {
        Run {
            runner: RunnerModel::initial(config, target),
            sent: Seq::empty(),
            outcomes: Seq::empty(),
        }
    }

    /// The run after its runner has taken in `input`, as `step`, `poll` and
    /// `complete` take it.
    pub open spec fn after(self, corpus: Seq<Seq<u8>>, input: Input) -> Run {
        match input {
            Input::Happened(event) => Run { runner: self.runner.step(event).0, ..self },
            Input::Polled { user, draw } => Run {
                runner: self.runner.polled(user, corpus, draw),
                sent: match self.runner.directive(user, corpus, draw) {
                    DirectiveModel::Send(plan) => self.sent.push(plan),
                    _ => self.sent,
                },
                outcomes: self.outcomes,
            },
            Input::Completed { user, completion, latency_ms, timestamp_ms } => Run {
                runner: self.runner.completed(user, completion, latency_ms, timestamp_ms),
                sent: self.sent,
                outcomes: if self.runner.awaits(user) {
                    self.outcomes.push(
                        self.runner.users[user as int].outcome(
                            completion,
                            latency_ms,
                            timestamp_ms,
                        ).unwrap(),
                    )
                } else {
                    self.outcomes
                },
            },
        }
    }

    /// Whether each request asked for is a PUT of a payload of `corpus`, as
    /// JSON, to the target, by a user of the pool.
    pub open spec fn requests_are_well_made(self, corpus: Seq<Seq<u8>>) -> bool {
        forall|i: int|
            0 <= i < self.sent.len() ==> {
                &&& (#[trigger] self.sent[i]).user < self.runner.users.len()
                &&& self.sent[i].method == Method::Put
                &&& self.sent[i].path == self.runner.target
                &&& self.sent[i].content_type == JSON@
                &&& self.sent[i].payload < corpus.len()
                &&& self.sent[i].body == corpus[self.sent[i].payload as int]
            }
    }

    /// Whether each outcome names a user of the pool, the target and a
    /// payload of `corpus`.
    pub open spec fn outcomes_are_attributed(self, corpus: Seq<Seq<u8>>) -> bool {
        forall|i: int|
            0 <= i < self.outcomes.len() ==> {
                &&& (#[trigger] self.outcomes[i]).user < self.runner.users.len()
                &&& self.outcomes[i].method == Method::Put
                &&& self.outcomes[i].path == self.runner.target
                &&& self.outcomes[i].payload < corpus.len()
            }
    }

    /// Whether the payload of each request under way is one of `corpus`.
    pub open spec fn requests_under_way_are_of(self, corpus: Seq<Seq<u8>>) -> bool {
        forall|user: int|
            0 <= user < self.runner.users.len() ==> sends_from(
                #[trigger] self.runner.users[user],
                corpus,
            )
    }

    /// What holds of a run over `corpus` at every moment:
    /// - its runner is valid;
    /// - its metrics are those of the outcomes of its requests, each
    ///   recorded once, whether it succeeded or failed;
    /// - every request asked for has its outcome recorded, but for those
    ///   that are under way;
    /// - each request is well made, and each outcome attributed.
    pub open spec fn sound(self, corpus: Seq<Seq<u8>>) -> bool {
        &&& self.runner.valid()
        &&& self.runner.metrics == MetricsModel::tally(self.outcomes)
        &&& self.sent.len() == self.outcomes.len() + in_flight_count(self.runner.users)
        &&& self.requests_under_way_are_of(corpus)
        &&& self.requests_are_well_made(corpus)
        &&& self.outcomes_are_attributed(corpus)
    }
}

/// The run with `config` against `target` over `corpus`, after its runner has
/// taken in `inputs` one after the other.
pub open spec fn run(
    config: RunConfig,
    target: Seq<char>,
    corpus: Seq<Seq<u8>>,
    inputs: Seq<Input>,
) -> Run
    decreases inputs.len(),
{
    if inputs.len() == 0 {
        Run::start(config, target)
    } else {
        run(config, target, corpus, inputs.drop_last()).after(corpus, inputs.last())
    }
}

/// An event of the run keeps it sound.
proof fn lemma_event_keeps_sound(before: Run, corpus: Seq<Seq<u8>>, event: Event)
    requires
        before.sound(corpus),
    ensures
        before.after(corpus, Input::Happened(event)).sound(corpus),
{
    let now = before.after(corpus, Input::Happened(event));
    lemma_step_keeps_valid(before.runner, event);
    let added = now.runner.users.subrange(
        before.runner.users.len() as int,
        now.runner.users.len() as int,
    );
    assert(now.runner.users =~= before.runner.users + added);
    lemma_in_flight_with_new(before.runner.users, added);
}

/// A poll of a user keeps the run sound.
proof fn lemma_poll_keeps_sound(before: Run, corpus: Seq<Seq<u8>>, user: usize, draw: u64)
    requires
        before.sound(corpus),
        0 < corpus.len() <= usize::MAX,
    ensures
        before.after(corpus, Input::Polled { user, draw }).sound(corpus),
{
    lemma_poll_keeps_valid(before.runner, user, corpus, draw);
    if user < before.runner.users.len() {
        let polled = before.runner.users[user as int];
        let stop = before.runner.stopping();
        let after = polled.polled(corpus, stop, draw);
        lemma_in_flight_updated(before.runner.users, user as int, after);
        lemma_mod_bound(polled.cursor as int, corpus.len() as int);
        lemma_mod_bound(draw as int, corpus.len() as int);
    }
}

/// The end of a request keeps the run sound.
proof fn lemma_completion_keeps_sound(
    before: Run,
    corpus: Seq<Seq<u8>>,
    user: usize,
    completion: Completion,
    latency_ms: u64,
    timestamp_ms: u64,
)
    requires
        before.sound(corpus),
    ensures
        before.after(
            corpus,
            Input::Completed { user, completion, latency_ms, timestamp_ms },
        ).sound(corpus),
{
    let now = before.after(corpus, Input::Completed { user, completion, latency_ms, timestamp_ms });
    lemma_complete_keeps_valid(before.runner, user, completion, latency_ms, timestamp_ms);
    if before.runner.awaits(user) {
        lemma_in_flight_updated(
            before.runner.users,
            user as int,
            before.runner.users[user as int].completed(),
        );
        assert(now.outcomes.drop_last() == before.outcomes);
    }
}

/// Whatever a sound run takes in, it stays sound, keeps its configuration
/// and its target, and does not fall back to a phase that it has left.
pub proof fn lemma_input_keeps_sound(before: Run, corpus: Seq<Seq<u8>>, input: Input)
    requires
        before.sound(corpus),
        0 < corpus.len() <= usize::MAX,
    ensures
        before.after(corpus, input).sound(corpus),
        before.after(corpus, input).runner.config == before.runner.config,
        before.after(corpus, input).runner.target == before.runner.target,
        rank(before.runner.phase) <= rank(before.after(corpus, input).runner.phase),
{
    match input {
        Input::Happened(event) => {
            lemma_event_keeps_sound(before, corpus, event);
            lemma_phases_in_order(before.runner, event);
        },
        Input::Polled { user, draw } => {
            lemma_poll_keeps_sound(before, corpus, user, draw);
        },
        Input::Completed { user, completion, latency_ms, timestamp_ms } => {
            lemma_completion_keeps_sound(
                before,
                corpus,
                user,
                completion,
                latency_ms,
                timestamp_ms,
            );
        },
    }
}

/// A run is sound at every moment, whatever it takes in and in whatever
/// order.
pub proof fn lemma_run_is_sound(
    config: RunConfig,
    target: Seq<char>,
    corpus: Seq<Seq<u8>>,
    inputs: Seq<Input>,
)
    requires
        0 < corpus.len() <= usize::MAX,
    ensures
        run(config, target, corpus, inputs).sound(corpus),
        run(config, target, corpus, inputs).runner.config == config,
        run(config, target, corpus, inputs).runner.target == target,
    decreases inputs.len(),
{
    if inputs.len() > 0 {
        lemma_run_is_sound(config, target, corpus, inputs.drop_last());
        lemma_input_keeps_sound(
            run(config, target, corpus, inputs.drop_last()),
            corpus,
            inputs.last(),
        );
    }
}

/// A run never falls back: the phase that it had reached after the first
/// `earlier` of its inputs is the phase that it is in after all of them, or
/// comes before it.
pub proof fn lemma_run_never_falls_back(
    config: RunConfig,
    target: Seq<char>,
    corpus: Seq<Seq<u8>>,
    inputs: Seq<Input>,
    earlier: int,
)
    requires
        0 < corpus.len() <= usize::MAX,
        0 <= earlier <= inputs.len(),
    ensures
        rank(run(config, target, corpus, inputs.take(earlier)).runner.phase) <= rank(
            run(config, target, corpus, inputs).runner.phase,
        ),
    decreases inputs.len(),
{
    if earlier < inputs.len() {
        lemma_run_never_falls_back(config, target, corpus, inputs.drop_last(), earlier);
        assert(inputs.drop_last().take(earlier) == inputs.take(earlier));
        lemma_run_is_sound(config, target, corpus, inputs.drop_last());
        lemma_input_keeps_sound(
            run(config, target, corpus, inputs.drop_last()),
            corpus,
            inputs.last(),
        );
    } else {
        assert(inputs.take(earlier) == inputs);
    }
}

/// Those of `sent` that the user numbered `user` asked for, in their order.
pub open spec fn sent_by(sent: Seq<PlanModel>, user: int) -> Seq<PlanModel>
    decreases sent.len(),
{
    if sent.len() == 0 {
        Seq::empty()
    } else if sent.last().user == user {
        sent_by(sent.drop_last(), user).push(sent.last())
    } else {
        sent_by(sent.drop_last(), user)
    }
}

impl Run {
    /// Whether each user of the pool has gone through `corpus` in its order,
    /// again and again, and stands where its next request is due.
    pub open spec fn in_corpus_order(self, corpus: Seq<Seq<u8>>) -> bool {
        forall|user: int|
            0 <= user < self.runner.users.len() ==> {
                &&& (#[trigger] self.runner.users[user]).cursor == sent_by(self.sent, user).len()
                    % corpus.len()
                &&& self.in_order(corpus, user)
            }
    }

    /// Whether the requests of the user numbered `user` follow the order of
    /// `corpus`, starting over after its last payload.
    pub open spec fn in_order(self, corpus: Seq<Seq<u8>>, user: int) -> bool {
        forall|k: int|
            0 <= k < sent_by(self.sent, user).len() ==> (#[trigger] sent_by(
                self.sent,
                user,
            )[k]).payload == k % (corpus.len() as int)
    }
}

/// A step of a run under the sequential policy keeps each user in the
/// order of the corpus.
proof fn lemma_input_keeps_corpus_order(before: Run, corpus: Seq<Seq<u8>>, input: Input)
    requires
        before.sound(corpus),
        before.in_corpus_order(corpus),
        before.runner.config.policy == Policy::Sequential,
        0 < corpus.len() <= usize::MAX,
    ensures
        before.after(corpus, input).in_corpus_order(corpus),
{
    let now = before.after(corpus, input);
    lemma_input_keeps_sound(before, corpus, input);
    match input {
        Input::Happened(event) => {
            lemma_step_keeps_valid(before.runner, event);
            lemma_commands_match_transitions(before.runner, event);
            assert forall|user: int| before.runner.users.len() <= user implies sent_by(
                before.sent,
                user,
            ).len() == 0 by {
                lemma_sent_by_a_stranger(before, corpus, before.sent.len() as int, user);
            }
        },
        Input::Polled { user, draw } => {
            lemma_poll_keeps_valid(before.runner, user, corpus, draw);
            if before.runner.directive(user, corpus, draw) is Send {
                let asked = sent_by(before.sent, user as int).len() as int;
                lemma_next_in_cycle(asked, corpus.len() as int);
                lemma_mod_twice(asked, corpus.len() as int);
                assert(now.sent.drop_last() == before.sent);
                assert forall|other: int| 0 <= other < now.runner.users.len() implies {
                    &&& (#[trigger] now.runner.users[other]).cursor == sent_by(now.sent, other).len()
                        % corpus.len()
                    &&& now.in_order(corpus, other)
                } by {
                    assert(before.in_order(corpus, other));
                    if other != user {
                        assert(now.runner.users[other] == before.runner.users[other]);
                    }
                }
            }
        },
        Input::Completed { user, completion, latency_ms, timestamp_ms } => {
            lemma_complete_keeps_valid(before.runner, user, completion, latency_ms, timestamp_ms);
            assert forall|other: int| 0 <= other < now.runner.users.len() implies {
                &&& (#[trigger] now.runner.users[other]).cursor == sent_by(now.sent, other).len()
                    % corpus.len()
                &&& now.in_order(corpus, other)
            } by {
                assert(before.in_order(corpus, other));
                assert(now.runner.users[other].cursor == before.runner.users[other].cursor);
            }
        },
    }
}

/// No request was asked for by a number that no user of the pool has.
proof fn lemma_sent_by_a_stranger(run: Run, corpus: Seq<Seq<u8>>, upto: int, user: int)
    requires
        run.requests_are_well_made(corpus),
        run.runner.users.len() <= user,
        0 <= upto <= run.sent.len(),
    ensures
        sent_by(run.sent.take(upto), user).len() == 0,
        upto == run.sent.len() ==> sent_by(run.sent, user).len() == 0,
    decreases upto,
{
    if upto > 0 {
        lemma_sent_by_a_stranger(run, corpus, upto - 1, user);
        assert(run.sent.take(upto).drop_last() == run.sent.take(upto - 1));
        assert(run.sent.take(upto).last() == run.sent[upto - 1]);
    }
    if upto == run.sent.len() {
        assert(run.sent.take(upto) == run.sent);
    }
}

/// Under the sequential policy each user of a run goes through the corpus
/// in its order, again and again, whatever the others do: the requests that
/// it asks for take the payloads one after the other and start over after
/// the last.
pub proof fn lemma_run_keeps_corpus_order(
    config: RunConfig,
    target: Seq<char>,
    corpus: Seq<Seq<u8>>,
    inputs: Seq<Input>,
)
    requires
        config.policy == Policy::Sequential,
        0 < corpus.len() <= usize::MAX,
    ensures
        run(config, target, corpus, inputs).in_corpus_order(corpus),
    decreases inputs.len(),
{
    if inputs.len() > 0 {
        lemma_run_keeps_corpus_order(config, target, corpus, inputs.drop_last());
        lemma_run_is_sound(config, target, corpus, inputs.drop_last());
        lemma_input_keeps_corpus_order(
            run(config, target, corpus, inputs.drop_last()),
            corpus,
            inputs.last(),
        );
    }
}

/// No outcome is dropped and none is counted twice: whenever no request of
/// a run is under way, as when the run has stopped, its metrics count as
/// many outcomes as its users asked requests for.
pub proof fn lemma_recorded_outcomes_match_requests(
    config: RunConfig,
    target: Seq<char>,
    corpus: Seq<Seq<u8>>,
    inputs: Seq<Input>,
)
    requires
        0 < corpus.len() <= usize::MAX,
    ensures
        ({
            let now = run(config, target, corpus, inputs);
            &&& now.runner.phase == Phase::Stopped ==> in_flight_count(now.runner.users) == 0
            &&& in_flight_count(now.runner.users) == 0 ==> {
                &&& now.outcomes.len() == now.sent.len()
                &&& now.runner.metrics.total() == counted(now.sent.len())
            }
        }),
{
    let now = run(config, target, corpus, inputs);
    lemma_run_is_sound(config, target, corpus, inputs);
    if now.runner.phase == Phase::Stopped {
        lemma_none_in_flight(now.runner.users);
    }
    lemma_tally_counts_each_outcome_once(now.outcomes);
}

} // verus!
