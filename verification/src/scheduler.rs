//! The execution scheduler: one state machine per run that admits commands
//! under the configured concurrency discipline, tracks each command from
//! `Pending` through a terminal state, and aggregates the outcomes into an
//! `ExecutionReport`. The caller owns the actual processes and terminal; it
//! consults this machine for every admission decision and reports every
//! completion back, so the ordering and cap guarantees proved here govern the
//! whole run.

use vstd::prelude::*;

verus! {

/// The lifecycle of one command: admission moves it from `Pending` to
/// `Spawning`, a successful spawn to `Running`, and exit (or a spawn failure)
/// to `Completed`; in sequential mode commands behind a failure move straight
/// from `Pending` to `Skipped`.
#[derive(Clone, Copy, Debug, PartialEq, Eq, Structural)]
pub enum CommandState {
    Pending,
    Spawning,
    Running,
    Completed { success: bool },
    Skipped,
}

/// The recorded outcome of one command that finished (by exit or by spawn
/// failure); skipped commands produce no result.
#[derive(Debug)]
pub struct CommandResult {
    /// Position of the command in its script.
    pub index: usize,
    /// Whether the command exited with status zero.
    pub success: bool,
    /// Wall-clock time from spawn to exit, in milliseconds.
    pub duration_ms: u64,
    /// The spawn or exit diagnostic, for failures.
    pub error: Option<String>,
}

/// The final record of one script run.
#[derive(Debug)]
pub struct ExecutionReport {
    /// Wall-clock time of the whole run, in milliseconds.
    pub total_duration_ms: u64,
    /// True exactly when every recorded command succeeded.
    pub overall_success: bool,
    /// One entry per command that finished, in completion order.
    pub results: Vec<CommandResult>,
    /// Whether the run used parallel admission.
    pub parallel: bool,
    /// The admission cap the run was configured with.
    pub max_concurrency: usize,
}

/// A command that is done: completed or skipped.
pub open spec fn is_terminal(s: CommandState) -> bool {
    s is Completed || s is Skipped
}

/// A command that holds an admission slot: admitted but not yet done.
pub open spec fn holds_slot(s: CommandState) -> bool {
    s is Spawning || s is Running
}

/// A command whose process is running.
pub open spec fn is_running(s: CommandState) -> bool {
    s is Running
}

/// A command that completed and failed.
pub open spec fn is_failed(s: CommandState) -> bool {
    s matches CommandState::Completed { success: false }
}

/// How many states of `ss` satisfy `f`.
pub open spec fn count_where(ss: Seq<CommandState>, f: spec_fn(CommandState) -> bool) -> nat
    decreases ss.len(),
{
    if ss.len() == 0 {
        0
    } else {
        count_where(ss.drop_last(), f) + if f(ss.last()) {
            1nat
        } else {
            0nat
        }
    }
}

/// Some command has completed and failed.
pub open spec fn has_failure(ss: Seq<CommandState>) -> bool {
    exists|i: int| 0 <= i < ss.len() && is_failed(ss[i])
}

/// Every command is done.
pub open spec fn all_terminal(ss: Seq<CommandState>) -> bool {
    forall|i: int| 0 <= i < ss.len() ==> is_terminal(ss[i])
}

/// Every recorded outcome is a success.
pub open spec fn all_succeeded(rs: Seq<CommandResult>) -> bool {
    forall|i: int| 0 <= i < rs.len() ==> rs[i].success
}

proof fn lemma_count_update(
    ss: Seq<CommandState>,
    f: spec_fn(CommandState) -> bool,
    i: int,
    v: CommandState,
)
    requires
        0 <= i < ss.len(),
    ensures
        count_where(ss.update(i, v), f) + (if f(ss[i]) {
            1nat
        } else {
            0nat
        }) == count_where(ss, f) + (if f(v) {
            1nat
        } else {
            0nat
        }),
    decreases ss.len(),
{
    let upd = ss.update(i, v);
    if i == ss.len() - 1 {
        assert(upd.drop_last() =~= ss.drop_last());
        assert(upd.last() == v);
    } else {
        assert(upd.drop_last() =~= ss.drop_last().update(i, v));
        assert(upd.last() == ss.last());
        lemma_count_update(ss.drop_last(), f, i, v);
    }
}

proof fn lemma_count_le(
    ss: Seq<CommandState>,
    f: spec_fn(CommandState) -> bool,
    g: spec_fn(CommandState) -> bool,
)
    requires
        forall|s: CommandState| #[trigger] f(s) ==> g(s),
    ensures
        count_where(ss, f) <= count_where(ss, g),
    decreases ss.len(),
{
    if ss.len() > 0 {
        lemma_count_le(ss.drop_last(), f, g);
    }
}

proof fn lemma_count_zero(ss: Seq<CommandState>, f: spec_fn(CommandState) -> bool)
    ensures
        (count_where(ss, f) == 0) <==> (forall|i: int| 0 <= i < ss.len() ==> !f(ss[i])),
    decreases ss.len(),
{
    if ss.len() > 0 {
        lemma_count_zero(ss.drop_last(), f);
        assert(forall|i: int| 0 <= i < ss.len() - 1 ==> ss.drop_last()[i] == ss[i]);
        if count_where(ss, f) == 0 {
            assert(!f(ss.last()));
            assert(forall|i: int| 0 <= i < ss.len() ==> !f(ss[i]));
        }
        if forall|i: int| 0 <= i < ss.len() ==> !f(ss[i]) {
            assert(!f(ss[ss.len() - 1]));
            assert(forall|i: int| 0 <= i < ss.drop_last().len() ==> !f(ss.drop_last()[i]));
        }
    }
}

/// The per-run scheduler. Commands are admitted in script order: everything
/// before the cursor has been admitted or skipped, everything from the cursor
/// on is still pending.
pub struct Scheduler {
    parallel: bool,
    cap: usize,
    states: Vec<CommandState>,
    next: usize,
    slots: usize,
    failed: bool,
    results: Vec<CommandResult>,
}

impl Scheduler {
    /// The per-command states, by command index.
    pub closed spec fn states(self) -> Seq<CommandState> {
        self.states@
    }

    /// Whether this run uses parallel admission.
    pub closed spec fn is_parallel(self) -> bool {
        self.parallel
    }

    /// The admission cap.
    pub closed spec fn max_concurrency(self) -> nat {
        self.cap as nat
    }

    /// The admission cursor: commands below it are admitted or skipped.
    pub closed spec fn cursor(self) -> nat {
        self.next as nat
    }

    /// The outcomes recorded so far, in completion order.
    pub closed spec fn results(self) -> Seq<CommandResult> {
        self.results@
    }

    /// The scheduler's internal consistency: the cursor splits pending from
    /// admitted commands, the slot counter counts exactly the admitted,
    /// not-yet-done commands, the failure flag mirrors the states, parallel
    /// runs never exceed their cap and never skip, sequential runs hold at
    /// most one slot.
    pub closed spec fn wf(self) -> bool {
        &&& self.cap >= 1
        &&& self.next <= self.states@.len()
        &&& (forall|i: int| self.next <= i < self.states@.len() ==> self.states@[i] is Pending)
        &&& (forall|i: int| 0 <= i < self.next ==> !(self.states@[i] is Pending))
        &&& self.slots as nat == count_where(self.states@, |s: CommandState| holds_slot(s))
        &&& self.failed == has_failure(self.states@)
        &&& (self.parallel ==> self.slots <= self.cap)
        &&& (!self.parallel ==> self.slots <= 1)
        &&& (self.parallel ==> forall|i: int|
            0 <= i < self.states@.len() ==> !(self.states@[i] is Skipped))
    }

    /// Admission is allowed: a command is pending, and a slot is free — below
    /// the cap in parallel mode; in sequential mode no command may be in
    /// flight and none may have failed.
    pub closed spec fn admit_enabled(self) -> bool {
        &&& self.next < self.states@.len()
        &&& if self.parallel {
            self.slots < self.cap
        } else {
            self.slots == 0 && !has_failure(self.states@)
        }
    }

    /// A fresh scheduler: every command pending, no slot held, nothing
    /// recorded.
    pub fn new(n: usize, parallel: bool, cap: usize) -> (s: Self)
        requires
            cap >= 1,
        ensures
            s.wf(),
            s.states().len() == n,
            forall|i: int| 0 <= i < n ==> s.states()[i] is Pending,
            s.is_parallel() == parallel,
            s.max_concurrency() == cap,
            s.cursor() == 0,
            s.results() =~= Seq::<CommandResult>::empty(),
            n > 0 ==> s.admit_enabled(),
    {
        let mut states: Vec<CommandState> = Vec::new();
        let mut i: usize = 0;
        while i < n
            invariant
                i <= n,
                states@.len() == i,
                forall|j: int| 0 <= j < i ==> states@[j] is Pending,
                count_where(states@, |s: CommandState| holds_slot(s)) == 0,
            decreases n - i,
        {
            let ghost prev = states@;
            states.push(CommandState::Pending);
            proof {
                assert(states@.drop_last() =~= prev);
            }
            i = i + 1;
        }
        Scheduler { parallel, cap, states, next: 0, slots: 0, failed: false, results: Vec::new() }
    }

    /// How many commands this run has.
    pub fn len(&self) -> (n: usize)
        ensures
            n == self.states().len(),
    {
        self.states.len()
    }

    /// The current state of command `i`.
    pub fn state(&self, i: usize) -> (s: CommandState)
        requires
            i < self.states().len(),
        ensures
            s == self.states()[i as int],
    {
        self.states[i]
    }

    /// Whether a command may be admitted right now.
    pub fn can_admit(&self) -> (r: bool)
        requires
            self.wf(),
        ensures
            r == self.admit_enabled(),
    {
        if self.next >= self.states.len() {
            return false;
        }
        if self.parallel {
            self.slots < self.cap
        } else {
            self.slots == 0 && !self.failed
        }
    }

    /// Admits the next pending command: it takes a slot and moves to
    /// `Spawning`. Returns its index.
    pub fn admit_next(&mut self) -> (i: usize)
        requires
            old(self).wf(),
            old(self).admit_enabled(),
        ensures
            final(self).wf(),
            i == old(self).cursor(),
            final(self).states() == old(self).states().update(
                i as int,
                CommandState::Spawning,
            ),
            final(self).cursor() == old(self).cursor() + 1,
            final(self).is_parallel() == old(self).is_parallel(),
            final(self).max_concurrency() == old(self).max_concurrency(),
            final(self).results() == old(self).results(),
    {
        let i = self.next;
        let n = self.states.len();
        proof {
            lemma_count_update(
                self.states@,
                |s: CommandState| holds_slot(s),
                i as int,
                CommandState::Spawning,
            );
        }
        let ghost prev = self.states@;
        self.states[i] = CommandState::Spawning;
        self.next = i + 1;
        self.slots = self.slots + 1;
        proof {
            if self.failed {
                let j = choose|j: int| 0 <= j < prev.len() && is_failed(prev[j]);
                assert(is_failed(self.states@[j]));
            }
            if has_failure(self.states@) {
                let j = choose|j: int| 0 <= j < self.states@.len() && is_failed(self.states@[j]);
                assert(is_failed(prev[j]));
            }
        }
        i
    }

    /// Records that the admitted command `i` was spawned and is now running;
    /// it keeps its slot.
    pub fn start(&mut self, i: usize)
        requires
            old(self).wf(),
            i < old(self).states().len(),
            old(self).states()[i as int] is Spawning,
        ensures
            final(self).wf(),
            final(self).states() == old(self).states().update(i as int, CommandState::Running),
            final(self).cursor() == old(self).cursor(),
            final(self).is_parallel() == old(self).is_parallel(),
            final(self).max_concurrency() == old(self).max_concurrency(),
            final(self).results() == old(self).results(),
    {
        proof {
            lemma_count_update(
                self.states@,
                |s: CommandState| holds_slot(s),
                i as int,
                CommandState::Running,
            );
        }
        let ghost prev = self.states@;
        self.states[i] = CommandState::Running;
        proof {
            if self.failed {
                let j = choose|j: int| 0 <= j < prev.len() && is_failed(prev[j]);
                assert(is_failed(self.states@[j]));
            }
            if has_failure(self.states@) {
                let j = choose|j: int| 0 <= j < self.states@.len() && is_failed(self.states@[j]);
                assert(is_failed(prev[j]));
            }
        }
    }

    /// Records that running command `i` exited: it completes with the given
    /// outcome, releases its slot, and its result is recorded.
    pub fn complete(&mut self, i: usize, success: bool, duration_ms: u64, error: Option<String>)
        requires
            old(self).wf(),
            i < old(self).states().len(),
            old(self).states()[i as int] is Running,
        ensures
            final(self).wf(),
            final(self).states() == old(self).states().update(
                i as int,
                CommandState::Completed { success },
            ),
            final(self).cursor() == old(self).cursor(),
            final(self).is_parallel() == old(self).is_parallel(),
            final(self).max_concurrency() == old(self).max_concurrency(),
            final(self).results() == old(self).results().push(
                CommandResult { index: i, success, duration_ms, error },
            ),
    {
        proof {
            lemma_count_update(
                self.states@,
                |s: CommandState| holds_slot(s),
                i as int,
                CommandState::Completed { success },
            );
        }
        let ghost prev = self.states@;
        self.states[i] = CommandState::Completed { success };
        self.slots = self.slots - 1;
        self.failed = self.failed || !success;
        self.results.push(CommandResult { index: i, success, duration_ms, error });
        proof {
            if has_failure(prev) {
                let j = choose|j: int| 0 <= j < prev.len() && is_failed(prev[j]);
                assert(is_failed(self.states@[j]));
            }
            if !success {
                assert(is_failed(self.states@[i as int]));
            }
            if has_failure(self.states@) && !has_failure(prev) {
                let j = choose|j: int| 0 <= j < self.states@.len() && is_failed(self.states@[j]);
                assert(j == i);
            }
        }
    }

    /// Records that admitted command `i` could not be spawned: it completes
    /// as a failure carrying the spawn diagnostic, and releases its slot.
    pub fn spawn_failed(&mut self, i: usize, duration_ms: u64, error: String)
        requires
            old(self).wf(),
            i < old(self).states().len(),
            old(self).states()[i as int] is Spawning,
        ensures
            final(self).wf(),
            final(self).states() == old(self).states().update(
                i as int,
                CommandState::Completed { success: false },
            ),
            final(self).cursor() == old(self).cursor(),
            final(self).is_parallel() == old(self).is_parallel(),
            final(self).max_concurrency() == old(self).max_concurrency(),
            final(self).results() == old(self).results().push(
                CommandResult { index: i, success: false, duration_ms, error: Some(error) },
            ),
    {
        proof {
            lemma_count_update(
                self.states@,
                |s: CommandState| holds_slot(s),
                i as int,
                CommandState::Completed { success: false },
            );
        }
        let ghost prev = self.states@;
        self.states[i] = CommandState::Completed { success: false };
        self.slots = self.slots - 1;
        self.failed = true;
        self.results.push(CommandResult { index: i, success: false, duration_ms, error: Some(error) });
        proof {
            assert(is_failed(self.states@[i as int]));
        }
    }

    /// In a sequential run that has seen a failure and has nothing in flight,
    /// moves every still-pending command to `Skipped`; they are never started
    /// and produce no result.
    pub fn skip_remaining(&mut self)
        requires
            old(self).wf(),
            !old(self).is_parallel(),
            has_failure(old(self).states()),
        ensures
            final(self).wf(),
            final(self).states().len() == old(self).states().len(),
            forall|i: int|
                0 <= i < old(self).cursor() ==> final(self).states()[i] == old(self).states()[i],
            forall|i: int|
                old(self).cursor() <= i < old(self).states().len() ==> final(self).states()[i]
                    is Skipped,
            final(self).cursor() == final(self).states().len(),
            final(self).is_parallel() == old(self).is_parallel(),
            final(self).max_concurrency() == old(self).max_concurrency(),
            final(self).results() == old(self).results(),
    {
        let n = self.states.len();
        while self.next < n
            invariant
                self.states@.len() == n,
                old(self).cursor() <= self.next as nat <= n,
                self.parallel == old(self).parallel,
                self.cap == old(self).cap,
                self.slots == old(self).slots,
                self.failed == old(self).failed,
                self.results@ == old(self).results@,
                old(self).wf(),
                !old(self).is_parallel(),
                forall|i: int|
                    0 <= i < old(self).cursor() ==> self.states@[i] == old(self).states()[i],
                forall|i: int|
                    old(self).cursor() <= i < self.next ==> self.states@[i] is Skipped,
                forall|i: int| self.next <= i < n ==> self.states@[i] is Pending,
                count_where(self.states@, |s: CommandState| holds_slot(s)) == self.slots as nat,
                has_failure(self.states@) == has_failure(old(self).states()),
            decreases n - self.next,
        {
            let i = self.next;
            proof {
                lemma_count_update(
                    self.states@,
                    |s: CommandState| holds_slot(s),
                    i as int,
                    CommandState::Skipped,
                );
            }
            let ghost prev = self.states@;
            self.states[i] = CommandState::Skipped;
            self.next = i + 1;
            proof {
                if has_failure(prev) {
                    let j = choose|j: int| 0 <= j < prev.len() && is_failed(prev[j]);
                    assert(is_failed(self.states@[j]));
                }
                if has_failure(self.states@) {
                    let j = choose|j: int|
                        0 <= j < self.states@.len() && is_failed(self.states@[j]);
                    assert(is_failed(prev[j]));
                }
            }
        }
        proof {
            assert forall|i: int| 0 <= i < self.next implies !(self.states@[i] is Pending) by {
                if i < old(self).cursor() {
                    assert(self.states@[i] == old(self).states()[i]);
                    assert(!(old(self).states()[i] is Pending));
                } else {
                    assert(self.states@[i] is Skipped);
                }
            }
        }
    }

    /// Whether every command has reached a terminal state.
    pub fn finished(&self) -> (r: bool)
        requires
            self.wf(),
        ensures
            r == all_terminal(self.states()),
    {
        proof {
            lemma_count_zero(self.states@, |s: CommandState| holds_slot(s));
        }
        self.next == self.states.len() && self.slots == 0
    }

    /// Builds the final report once every command is done: the recorded
    /// outcomes in completion order, overall success exactly when every one
    /// of them succeeded, and the run's mode and timing.
    pub fn report(self, total_duration_ms: u64) -> (r: ExecutionReport)
        requires
            self.wf(),
            all_terminal(self.states()),
        ensures
            r.results@ == self.results(),
            r.overall_success == all_succeeded(self.results()),
            r.parallel == self.is_parallel(),
            r.max_concurrency == self.max_concurrency(),
            r.total_duration_ms == total_duration_ms,
    {
        let mut overall: bool = true;
        let n = self.results.len();
        let mut i: usize = 0;
        while i < n
            invariant
                i <= n,
                n == self.results@.len(),
                overall == (forall|j: int| 0 <= j < i ==> self.results@[j].success),
            decreases n - i,
        {
            if !self.results[i].success {
                overall = false;
            }
            i = i + 1;
        }
        ExecutionReport {
            total_duration_ms,
            overall_success: overall,
            results: self.results,
            parallel: self.parallel,
            max_concurrency: self.cap,
        }
    }
}

/// Law: in a parallel run, the number of commands whose process is running
/// never exceeds the configured concurrency cap.
pub proof fn lemma_parallel_cap(s: Scheduler)
    requires
        s.wf(),
        s.is_parallel(),
    ensures
        count_where(s.states(), |st: CommandState| is_running(st)) <= s.max_concurrency(),
{
    lemma_count_le(
        s.states(),
        |st: CommandState| is_running(st),
        |st: CommandState| holds_slot(st),
    );
}

/// Law: in a sequential run, a command can be admitted only when every
/// earlier command has reached a terminal state — command `i + 1` starts only
/// after command `i` is done.
pub proof fn lemma_sequential_admission_gated(s: Scheduler)
    requires
        s.wf(),
        !s.is_parallel(),
        s.admit_enabled(),
    ensures
        forall|j: int| 0 <= j < s.cursor() ==> is_terminal(#[trigger] s.states()[j]),
{
    lemma_count_zero(s.states(), |st: CommandState| holds_slot(st));
}

/// Law: in a sequential run, once some command has failed, no further command
/// is ever admitted — everything after the failure stays out of execution.
pub proof fn lemma_sequential_failure_halts(s: Scheduler, k: int)
    requires
        s.wf(),
        !s.is_parallel(),
        0 <= k < s.states().len(),
        is_failed(s.states()[k]),
    ensures
        !s.admit_enabled(),
{
}

/// Law: in a sequential run, at most one command's process is ever running
/// at a time — the cap of one is enforced by ordering.
pub proof fn lemma_sequential_single_running(s: Scheduler)
    requires
        s.wf(),
        !s.is_parallel(),
    ensures
        count_where(s.states(), |st: CommandState| is_running(st)) <= 1,
{
    lemma_count_le(
        s.states(),
        |st: CommandState| is_running(st),
        |st: CommandState| holds_slot(st),
    );
}

/// Law: a parallel run can never get stuck. While any command is not yet in
/// a terminal state, either admission is enabled or some command holds a slot
/// (so its spawn or completion event is still to come) — an earlier failure
/// never strands a pending command.
pub proof fn lemma_parallel_no_deadlock(s: Scheduler)
    requires
        s.wf(),
        s.is_parallel(),
        !all_terminal(s.states()),
    ensures
        s.admit_enabled() || exists|i: int|
            0 <= i < s.states().len() && holds_slot(#[trigger] s.states()[i]),
{
    if !(exists|i: int| 0 <= i < s.states().len() && holds_slot(#[trigger] s.states()[i])) {
        lemma_count_zero(s.states(), |st: CommandState| holds_slot(st));
        assert(forall|i: int|
            0 <= i < s.states().len() ==> !holds_slot(#[trigger] s.states()[i]));
        assert(count_where(s.states(), |st: CommandState| holds_slot(st)) == 0);
        let w = choose|i: int| 0 <= i < s.states().len() && !is_terminal(s.states()[i]);
        assert(s.states()[w] is Pending);
        assert(s.cursor() <= w);
    }
}

} // verus!
