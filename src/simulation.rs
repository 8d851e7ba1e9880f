//! The simulation loop's decisions.
//!
//! The loop advances virtual time epoch by epoch: an epoch is the set of
//! actions that share one deadline. `step` moves the clock to the next
//! deadline and hands back the actions due then, in dispatch order; the
//! executor that runs them is the caller's, which then takes the actions that
//! were scheduled for the same instant meanwhile with `drain_current`, until
//! none is left, and reports how the run ended with `report`. Fatal errors
//! stick: once one was reported, every later call fails with it.
use vstd::prelude::*;

use crate::scheduler::{
    actions_of, drain, entry_before, entry_wf, has_room, insert_pos, is_cancelled, lemma_drain, lemma_purge,
    lemma_splits_unique, purge, splits_at, view_wf, ActionKey, Entry, Scheduler, SchedulerView,
};
use crate::time::{max_time, MonotonicTime};

verus! {

/// Errors of the simulation loop.
#[derive(Debug)]
pub enum ExecutionError {
    /// A halt was requested.
    Halted,
    /// Nothing is left to do.
    Terminated,
    /// The queue holds no action.
    NoEventScheduled,
    /// The target time is not in the future.
    DeadlineInPast,
    /// Every model that has work is waiting on a full mailbox; the models
    /// named are blocked.
    Deadlock(Vec<String>),
    /// A model reported an error.
    ModelError { model: String, cause: String },
    /// A model panicked.
    Panic { model: String, payload: String },
    /// Synchronisation with the wall clock failed.
    Timeout,
}

/// The errors after which the simulation refuses to go on.
pub open spec fn is_fatal(e: ExecutionError) -> bool {
    match e {
        ExecutionError::Deadlock(_) => true,
        ExecutionError::ModelError { .. } => true,
        ExecutionError::Panic { .. } => true,
        ExecutionError::Timeout => true,
        _ => false,
    }
}

/// The two errors are the same: of the same kind, with the same contents.
pub open spec fn same_error(a: ExecutionError, b: ExecutionError) -> bool {
    match (a, b) {
        (ExecutionError::Deadlock(x), ExecutionError::Deadlock(y)) => x@ == y@,
        _ => a == b,
    }
}

/// A copy of a vector of strings.
pub fn copy_strings(v: &Vec<String>) -> (r: Vec<String>)
    ensures
        r@ == v@,
{
    let mut r: Vec<String> = Vec::new();
    let mut i: usize = 0;
    while i < v.len()
        invariant
            i <= v.len(),
            r@ == v@.subrange(0, i as int),
        decreases v.len() - i,
    {
        r.push(v[i].clone());
        i = i + 1;
        proof {
            assert(r@ =~= v@.subrange(0, i as int));
        }
    }
    proof {
        assert(v@.subrange(0, v.len() as int) =~= v@);
    }
    r
}

impl ExecutionError {
    /// A copy of the error.
    pub fn duplicate(&self) -> (r: ExecutionError)
        ensures
            same_error(r, *self),
    {
        match self {
            ExecutionError::Halted => ExecutionError::Halted,
            ExecutionError::Terminated => ExecutionError::Terminated,
            ExecutionError::NoEventScheduled => ExecutionError::NoEventScheduled,
            ExecutionError::DeadlineInPast => ExecutionError::DeadlineInPast,
            ExecutionError::Deadlock(names) => ExecutionError::Deadlock(copy_strings(names)),
            ExecutionError::ModelError { model, cause } => ExecutionError::ModelError {
                model: model.clone(),
                cause: cause.clone(),
            },
            ExecutionError::Panic { model, payload } => ExecutionError::Panic {
                model: model.clone(),
                payload: payload.clone(),
            },
            ExecutionError::Timeout => ExecutionError::Timeout,
        }
    }

    /// Whether the simulation refuses to go on after this error.
    pub fn is_fatal(&self) -> (r: bool)
        ensures
            r == is_fatal(*self),
    {
        match self {
            ExecutionError::Deadlock(_) => true,
            ExecutionError::ModelError { .. } => true,
            ExecutionError::Panic { .. } => true,
            ExecutionError::Timeout => true,
            _ => false,
        }
    }
}

/// The clock set to the front deadline of a purged queue, and the entries of
/// that epoch taken.
pub open spec fn epoch<A>(p: SchedulerView<A>) -> (SchedulerView<A>, Seq<Entry<A>>) {
    let d = p.queue[0].deadline;
    let q = SchedulerView { time: d, ..p };
    drain(q, d, q.queue.len())
}

/// Setting the clock of a well-formed state to the deadline of its front
/// entry keeps it well-formed.
pub proof fn lemma_epoch_start<A>(p: SchedulerView<A>)
    requires
        view_wf(p),
        p.queue.len() > 0,
    ensures
        p.time@ <= p.queue[0].deadline@,
        view_wf(SchedulerView { time: p.queue[0].deadline, ..p }),
{
    let q = SchedulerView { time: p.queue[0].deadline, ..p };
    assert(entry_wf(p, p.queue[0]));
    assert forall|i: int| 0 <= i < q.queue.len() implies entry_wf(q, #[trigger] q.queue[i]) by {
        assert(entry_wf(p, p.queue[i]));
        if i > 0 {
            assert(entry_before(p.queue[0], p.queue[i]));
        }
    }
}

/// What an epoch does on a well-formed state with room.
proof fn lemma_epoch<A>(v: SchedulerView<A>)
    requires
        view_wf(v),
        has_room(v),
        purge(v).queue.len() > 0,
    ensures
        ({
            let p = purge(v);
            let d = p.queue[0].deadline;
            let (w, es) = epoch(p);
            &&& v.time@ <= d@
            &&& view_wf(w)
            &&& w.time == d
            &&& w.cancelled == v.cancelled
            &&& forall|i: int| 0 <= i < es.len() ==> (#[trigger] es[i]).deadline == d
            &&& forall|i: int| 0 <= i < es.len() ==> !is_cancelled(v, #[trigger] es[i])
            &&& forall|i: int, j: int| 0 <= i < j < es.len() ==> entry_before(es[i], es[j])
        }),
{
    lemma_purge(v);
    let p = purge(v);
    let d = p.queue[0].deadline;
    lemma_epoch_start(p);
    let q = SchedulerView { time: d, ..p };
    lemma_drain(q, d, q.queue.len());
    let (w, es) = epoch(p);
    assert forall|i: int| 0 <= i < es.len() implies !is_cancelled(v, #[trigger] es[i]) by {
        assert(!is_cancelled(q, es[i]));
    }
}

/// Dispatch order: an epoch runs at the deadline of the next action that was
/// not cancelled, which is no earlier than the current time; every action it
/// takes is due then, and every action left is due no earlier, so the next
/// epoch does not run earlier.
pub proof fn lemma_epochs_in_order<A>(v: SchedulerView<A>)
    requires
        view_wf(v),
        has_room(v),
        purge(v).queue.len() > 0,
    ensures
        ({
            let p = purge(v);
            let d = p.queue[0].deadline;
            let (w, es) = epoch(p);
            &&& v.time@ <= d@
            &&& w.time == d
            &&& forall|i: int| 0 <= i < es.len() ==> (#[trigger] es[i]).deadline == d
            &&& forall|i: int| 0 <= i < w.queue.len() ==> d@ <= (#[trigger] w.queue[i]).deadline@
            &&& purge(w).queue.len() > 0 ==> d@ <= purge(w).queue[0].deadline@
        }),
{
    lemma_epoch(v);
    let (w, es) = epoch(purge(v));
    assert forall|i: int| 0 <= i < w.queue.len() implies purge(v).queue[0].deadline@ <= (
    #[trigger] w.queue[i]).deadline@ by {
        assert(entry_wf(w, w.queue[i]));
    }
    lemma_purge(w);
    if purge(w).queue.len() > 0 {
        assert(entry_wf(purge(w), purge(w).queue[0]));
    }
}

/// First in, first out: the actions of an epoch come out in the order in
/// which they were scheduled, that is, by increasing sequence number.
pub proof fn lemma_epoch_fifo<A>(v: SchedulerView<A>)
    requires
        view_wf(v),
        has_room(v),
        purge(v).queue.len() > 0,
    ensures
        ({
            let es = epoch(purge(v)).1;
            forall|i: int, j: int| 0 <= i < j < es.len() ==> es[i].seq < es[j].seq
        }),
{
    lemma_epoch(v);
    let es = epoch(purge(v)).1;
    assert forall|i: int, j: int| 0 <= i < j < es.len() implies es[i].seq < es[j].seq by {
        assert(entry_before(es[i], es[j]));
        assert(es[i].deadline == es[j].deadline);
    }
}

/// Cancellation: an epoch takes no action whose key was cancelled, and the
/// key stays cancelled for the epochs that follow.
pub proof fn lemma_epoch_skips_cancelled<A>(v: SchedulerView<A>, key: ActionKey)
    requires
        view_wf(v),
        has_room(v),
        purge(v).queue.len() > 0,
        key.id < v.cancelled.len(),
        v.cancelled[key.id as int],
    ensures
        ({
            let (w, es) = epoch(purge(v));
            &&& forall|i: int| 0 <= i < es.len() ==> (#[trigger] es[i]).key != Some(key)
            &&& w.cancelled[key.id as int]
        }),
{
    lemma_epoch(v);
    let es = epoch(purge(v)).1;
    assert forall|i: int| 0 <= i < es.len() implies (#[trigger] es[i]).key != Some(key) by {
        assert(!is_cancelled(v, es[i]));
    }
}

/// The first `n` epochs run from `v`, each as its deadline and the entries
/// it takes, stopping early when nothing is left.
pub open spec fn epochs<A>(v: SchedulerView<A>, n: nat) -> Seq<(MonotonicTime, Seq<Entry<A>>)>
    decreases n,
{
    if n == 0 || purge(v).queue.len() == 0 {
        Seq::empty()
    } else {
        let p = purge(v);
        let (w, es) = epoch(p);
        seq![(p.queue[0].deadline, es)].add(epochs(w, (n - 1) as nat))
    }
}

/// An epoch run on a queue that holds one periodic entry, not cancelled,
/// takes that entry and leaves the queue holding its repetition one period
/// later.
proof fn lemma_periodic_epoch<A>(v: SchedulerView<A>)
    requires
        view_wf(v),
        has_room(v),
        v.queue.len() == 1,
        !is_cancelled(v, v.queue[0]),
        v.queue[0].period is Some,
        v.queue[0].deadline@ + v.queue[0].period->Some_0@ <= max_time(),
    ensures
        ({
            let e = v.queue[0];
            let p = e.period->Some_0;
            let (w, es) = epoch(purge(v));
            &&& purge(v) == v
            &&& es == seq![e]
            &&& view_wf(w)
            &&& w.next_seq == v.next_seq + 1
            &&& w.cancelled == v.cancelled
            &&& w.queue.len() == 1
            &&& w.queue[0].deadline@ == e.deadline@ + p@
            &&& w.queue[0].key == e.key && w.queue[0].period == e.period && w.queue[0].action == e.action
        }),
{
    let e = v.queue[0];
    let p = e.period->Some_0;
    let d = e.deadline;
    let q = SchedulerView { time: d, ..v };
    let rest = SchedulerView { queue: q.queue.drop_first(), ..q };
    assert(rest.queue.len() == 0);
    let t = d.add_spec(p);
    assert(entry_wf(v, e));
    assert(t.wf() && t@ == d@ + p@) by {
        let n = d.nanos + p.nanos;
    }
    assert(splits_at(rest.queue, t@, 0));
    lemma_splits_unique(rest.queue, t@, 0);
    assert(insert_pos(rest.queue, t@) == 0);
    lemma_epoch(v);
    lemma_epoch_len_one(v);
    assert(rest == crate::scheduler::without_front(q));
}

/// Periodic dispatch without drift: a queue holding one periodic entry due at
/// `t0`, never cancelled, runs `n + 1` epochs at exactly `t0 + k * period`
/// for `k` in `0..=n`, each taking that one action.
pub proof fn lemma_periodic_series<A>(v: SchedulerView<A>, n: nat)
    requires
        view_wf(v),
        has_room(v),
        v.next_seq + n + 1 < u64::MAX,
        v.queue.len() == 1,
        !is_cancelled(v, v.queue[0]),
        v.queue[0].period is Some,
        v.queue[0].deadline@ + n * v.queue[0].period->Some_0@ <= max_time(),
    ensures
        ({
            let e = v.queue[0];
            let p = e.period->Some_0;
            let s = epochs(v, n + 1);
            &&& s.len() == n + 1
            &&& forall|k: int| 0 <= k <= n ==> (#[trigger] s[k]).0@ == e.deadline@ + k * p@
            &&& forall|k: int| 0 <= k <= n ==> (#[trigger] s[k]).1.len() == 1 && s[k].1[0].action == e.action
                && s[k].1[0].key == e.key
        }),
    decreases n,
{
    let e = v.queue[0];
    let p = e.period->Some_0;
    assert(entry_wf(v, e));
    if n > 0 {
        assert(n * p@ >= p@) by (nonlinear_arith)
            requires
                n >= 1,
                p@ > 0,
        ;
    }
    if n == 0 {
        lemma_epoch_len_one(v);
        lemma_epoch(v);
        let (w, es) = epoch(purge(v));
        assert(epochs(w, 0) == Seq::<(MonotonicTime, Seq<Entry<A>>)>::empty());
        let s = epochs(v, 1);
        assert(s =~= seq![(e.deadline, es)]);
        assert(s[0].0 == e.deadline);
        assert forall|k: int| 0 <= k <= n implies (#[trigger] s[k]).0@ == e.deadline@ + k * p@ by {
            assert(k * p@ == 0) by (nonlinear_arith)
                requires
                    k == 0,
            ;
        }
    } else {
        lemma_periodic_epoch(v);
        lemma_epoch_len_one(v);
        let (w, es) = epoch(purge(v));
        let e2 = w.queue[0];
        assert(!is_cancelled(w, e2));
        assert(e2.deadline@ + (n - 1) * p@ <= max_time()) by (nonlinear_arith)
            requires
                e2.deadline@ == e.deadline@ + p@,
                e.deadline@ + n * p@ <= max_time(),
                n >= 1,
        ;
        lemma_periodic_series(w, (n - 1) as nat);
        let rest = epochs(w, n);
        let s = epochs(v, n + 1);
        assert(s =~= seq![(e.deadline, es)].add(rest));
        assert forall|k: int| 0 <= k <= n implies (#[trigger] s[k]).0@ == e.deadline@ + k * p@ by {
            if k > 0 {
                assert(s[k] == rest[k - 1]);
                assert(rest[k - 1].0@ == e2.deadline@ + (k - 1) * p@);
                assert(e2.deadline@ + (k - 1) * p@ == e.deadline@ + k * p@) by (nonlinear_arith)
                    requires
                        e2.deadline@ == e.deadline@ + p@,
                ;
            }
        }
        assert forall|k: int| 0 <= k <= n implies (#[trigger] s[k]).1.len() == 1 && s[k].1[0].action == e.action
            && s[k].1[0].key == e.key by {
            if k > 0 {
                assert(s[k] == rest[k - 1]);
            }
        }
    }
}

/// An epoch on a queue of one live entry takes exactly that entry.
proof fn lemma_epoch_len_one<A>(v: SchedulerView<A>)
    requires
        view_wf(v),
        v.queue.len() == 1,
        !is_cancelled(v, v.queue[0]),
    ensures
        purge(v) == v,
        epoch(v).1 == seq![v.queue[0]],
        epoch(v).0 == crate::scheduler::requeue(
            crate::scheduler::without_front(SchedulerView { time: v.queue[0].deadline, ..v }),
            v.queue[0],
        ),
{
    let e = v.queue[0];
    let d = e.deadline;
    let q = SchedulerView { time: d, ..v };
    let rest = crate::scheduler::without_front(q);
    let r = crate::scheduler::requeue(rest, e);
    assert(q.queue[0] == e);
    assert(!is_cancelled(q, e));
    assert(drain(r, d, 0) == (r, Seq::<Entry<A>>::empty()));
    assert(drain(q, d, 1) == (r, seq![e].add(Seq::<Entry<A>>::empty())));
    assert(seq![e].add(Seq::<Entry<A>>::empty()) =~= seq![e]);
}

/// Dispatch order over many steps: the epochs run one after the other from a
/// well-formed state come at non-decreasing deadlines, none earlier than the
/// clock, and each takes only actions due at its own deadline.
pub proof fn lemma_epochs_nondecreasing<A>(v: SchedulerView<A>, n: nat)
    requires
        view_wf(v),
        v.cancelled.len() < usize::MAX,
        v.next_seq + (n + 1) * v.queue.len() < u64::MAX,
    ensures
        ({
            let s = epochs(v, n);
            &&& s.len() > 0 ==> v.time@ <= s[0].0@
            &&& forall|i: int, j: int| 0 <= i < j < s.len() ==> s[i].0@ <= s[j].0@
            &&& forall|i: int, k: int|
                0 <= i < s.len() && 0 <= k < s[i].1.len() ==> (#[trigger] s[i].1[k]).deadline == s[i].0
        }),
    decreases n,
{
    let s = epochs(v, n);
    if n == 0 || purge(v).queue.len() == 0 {
        return;
    }
    let len = v.queue.len();
    assert(len >= 1) by {
        lemma_purge(v);
    }
    assert(v.next_seq + len <= v.next_seq + (n + 1) * len) by (nonlinear_arith)
        requires
            n >= 1,
    ;
    lemma_purge(v);
    lemma_epoch(v);
    lemma_epochs_in_order(v);
    let p = purge(v);
    let d = p.queue[0].deadline;
    let q = SchedulerView { time: d, ..p };
    lemma_epoch_start(p);
    lemma_drain(q, d, q.queue.len());
    let (w, es) = epoch(p);
    let m = (n - 1) as nat;
    assert(w.next_seq + (m + 1) * w.queue.len() < u64::MAX) by (nonlinear_arith)
        requires
            w.next_seq <= v.next_seq + len,
            w.queue.len() <= len,
            v.next_seq + (n + 1) * len < u64::MAX,
            m + 1 == n,
    ;
    lemma_epochs_nondecreasing(w, m);
    let rest = epochs(w, m);
    assert(s =~= seq![(d, es)].add(rest));
    if rest.len() > 0 {
        assert(purge(w).queue.len() > 0);
        assert(rest[0].0 == purge(w).queue[0].deadline);
    }
    assert forall|i: int, j: int| 0 <= i < j < s.len() implies s[i].0@ <= s[j].0@ by {
        if i == 0 {
            assert(s[j] == rest[j - 1]);
            if j > 1 {
                assert(rest[0].0@ <= rest[j - 1].0@);
            }
        } else {
            assert(s[i] == rest[i - 1] && s[j] == rest[j - 1]);
        }
    }
    assert forall|i: int, k: int| 0 <= i < s.len() && 0 <= k < s[i].1.len() implies (
    #[trigger] s[i].1[k]).deadline == s[i].0 by {
        if i > 0 {
            assert(s[i] == rest[i - 1]);
        }
    }
}

/// A simulation: the scheduler and the fatal error, if one occurred.
pub struct Simulation<A> {
    pub scheduler: Scheduler<A>,
    pub failure: Option<ExecutionError>,
}

impl<A: Copy> Simulation<A> {
    /// Well-formedness of the simulation.
    pub open spec fn wf(&self) -> bool {
        self.scheduler.wf()
    }

    /// A simulation whose clock reads `time`, with an empty queue.
    pub fn new(time: MonotonicTime) -> (r: Simulation<A>)
        requires
            time.wf(),
        ensures
            r.wf(),
            r.scheduler@.queue.len() == 0,
            r.scheduler@.next_seq == 0,
            r.scheduler@.cancelled.len() == 0,
            has_room(r.scheduler@),
            r.scheduler@.time == time,
            !r.scheduler@.halted,
            r.failure is None,
    {
        Simulation { scheduler: Scheduler::new(time), failure: None }
    }

    /// The current simulation time.
    pub fn time(&self) -> (r: MonotonicTime)
        ensures
            r == self.scheduler@.time,
    {
        self.scheduler.time()
    }

    /// Fails with the recorded fatal error, if any.
    fn check_failure(&self) -> (r: Result<(), ExecutionError>)
        ensures
            self.failure matches Some(e) ==> r matches Err(x) && same_error(x, e),
            self.failure is None ==> r is Ok,
    {
        match &self.failure {
            Some(e) => Err(e.duplicate()),
            None => Ok(()),
        }
    }

    /// Advances the clock to the deadline of the next action that was not
    /// cancelled and takes, in dispatch order, the actions due then.
    pub fn step(&mut self) -> (r: Result<Vec<A>, ExecutionError>)
        requires
            old(self).wf(),
            has_room(old(self).scheduler@),
        ensures
            final(self).wf(),
            final(self).failure == old(self).failure,
            old(self).scheduler@.time@ <= final(self).scheduler@.time@,
            old(self).failure matches Some(e) ==> final(self).scheduler@ == old(self).scheduler@ && (r matches Err(
                x,
            ) && same_error(x, e)),
            old(self).failure is None && old(self).scheduler@.halted ==> r == Err::<Vec<A>, _>(
                ExecutionError::Halted,
            ) && final(self).scheduler@ == old(self).scheduler@,
            old(self).failure is None && !old(self).scheduler@.halted ==> ({
                let p = purge(old(self).scheduler@);
                if p.queue.len() == 0 {
                    r == Err::<Vec<A>, _>(ExecutionError::NoEventScheduled) && final(self).scheduler@ == p
                } else {
                    r is Ok && final(self).scheduler@ == epoch(p).0 && r->Ok_0@ == actions_of(epoch(p).1)
                }
            }),
    {
        if let Err(e) = self.check_failure() {
            return Err(e);
        }
        if self.scheduler.is_halted() {
            return Err(ExecutionError::Halted);
        }
        match self.scheduler.peek_deadline() {
            None => Err(ExecutionError::NoEventScheduled),
            Some(d) => {
                proof {
                    assert(view_wf(self.scheduler@));
                    assert(entry_wf(self.scheduler@, self.scheduler@.queue[0]));
                }
                self.scheduler.advance_to(d);
                Ok(self.scheduler.drain_due(d))
            },
        }
    }

    /// Takes, in dispatch order, the actions scheduled for the current time
    /// while the current epoch was running.
    pub fn drain_current(&mut self) -> (r: Vec<A>)
        requires
            old(self).wf(),
            has_room(old(self).scheduler@),
        ensures
            final(self).wf(),
            final(self).failure == old(self).failure,
            final(self).scheduler@ == drain(
                old(self).scheduler@,
                old(self).scheduler@.time,
                old(self).scheduler@.queue.len(),
            ).0,
            r@ == actions_of(
                drain(old(self).scheduler@, old(self).scheduler@.time, old(self).scheduler@.queue.len()).1,
            ),
    {
        let t = self.scheduler.time();
        self.scheduler.drain_due(t)
    }

    /// Checks that the simulation may run up to `target`.
    pub fn check_target(&self, target: MonotonicTime) -> (r: Result<(), ExecutionError>)
        requires
            self.wf(),
            target.wf(),
        ensures
            self.failure matches Some(e) ==> r matches Err(x) && same_error(x, e),
            self.failure is None ==> (r is Ok <==> self.scheduler@.time@ < target@),
            self.failure is None && r is Err ==> r == Err::<(), _>(ExecutionError::DeadlineInPast),
    {
        self.check_failure()?;
        if target.le(&self.scheduler.time) {
            return Err(ExecutionError::DeadlineInPast);
        }
        Ok(())
    }

    /// One round of running up to `target`: if the next action that was not
    /// cancelled is due no later than `target`, its epoch is taken as by
    /// `step`; otherwise the clock is set to `target` and `None` comes back.
    pub fn step_until_next(&mut self, target: MonotonicTime) -> (r: Result<Option<Vec<A>>, ExecutionError>)
        requires
            old(self).wf(),
            has_room(old(self).scheduler@),
            target.wf(),
            old(self).scheduler@.time@ <= target@,
        ensures
            final(self).wf(),
            final(self).failure == old(self).failure,
            old(self).failure matches Some(e) ==> final(self).scheduler@ == old(self).scheduler@ && (r matches Err(
                x,
            ) && same_error(x, e)),
            old(self).failure is None && old(self).scheduler@.halted ==> r == Err::<Option<Vec<A>>, _>(
                ExecutionError::Halted,
            ) && final(self).scheduler@ == old(self).scheduler@,
            old(self).failure is None && !old(self).scheduler@.halted ==> ({
                let p = purge(old(self).scheduler@);
                if p.queue.len() > 0 && p.queue[0].deadline@ <= target@ {
                    r matches Ok(Some(v)) && final(self).scheduler@ == epoch(p).0 && v@ == actions_of(epoch(p).1)
                } else {
                    r matches Ok(None) && final(self).scheduler@ == (SchedulerView { time: target, ..p })
                }
            }),
    {
        if let Err(e) = self.check_failure() {
            return Err(e);
        }
        if self.scheduler.is_halted() {
            return Err(ExecutionError::Halted);
        }
        match self.scheduler.peek_deadline() {
            Some(d) => {
                proof {
                    assert(entry_wf(self.scheduler@, self.scheduler@.queue[0]));
                }
                if d.le(&target) {
                    self.scheduler.advance_to(d);
                    Ok(Some(self.scheduler.drain_due(d)))
                } else {
                    self.scheduler.advance_to(target);
                    Ok(None)
                }
            },
            None => {
                self.scheduler.advance_to(target);
                Ok(None)
            },
        }
    }

    /// Checks that an event or query may be processed now.
    pub fn check_process(&self) -> (r: Result<(), ExecutionError>)
        ensures
            self.failure matches Some(e) ==> r matches Err(x) && same_error(x, e),
            self.failure is None ==> r is Ok,
    {
        self.check_failure()
    }

    /// Records how a run of the executor ended; a fatal error is kept and
    /// returned by every later call.
    pub fn report(&mut self, outcome: Result<(), ExecutionError>) -> (r: Result<(), ExecutionError>)
        requires
            old(self).wf(),
        ensures
            final(self).wf(),
            final(self).scheduler == old(self).scheduler,
            r == outcome,
            outcome matches Err(e) ==> (is_fatal(e) ==> (final(self).failure matches Some(x) && same_error(x, e))) && (!is_fatal(e) ==> final(self).failure == old(self).failure),
            outcome is Ok ==> final(self).failure == old(self).failure,
    {
        if let Err(e) = &outcome {
            if e.is_fatal() {
                self.failure = Some(e.duplicate());
            }
        }
        outcome
    }
}

/// The models that are blocked, by name, in model order.
pub open spec fn blocked_names(blocked: Seq<bool>, names: Seq<String>) -> Seq<String>
    decreases blocked.len(),
{
    if blocked.len() == 0 || names.len() == 0 {
        Seq::empty()
    } else {
        let rest = blocked_names(blocked.drop_last(), names.drop_last());
        if blocked.last() && blocked.len() == names.len() {
            rest.push(names.last())
        } else {
            rest
        }
    }
}

/// The deadlock report, if the executor is stuck: no task can run and at least
/// one model waits on a full mailbox. `blocked[i]` tells whether model `i`,
/// named `names[i]`, waits on a full mailbox.
pub fn detect_deadlock(blocked: &Vec<bool>, names: &Vec<String>, runnable: usize) -> (r: Option<ExecutionError>)
    requires
        blocked.len() == names.len(),
    ensures
        r is Some <==> runnable == 0 && exists|i: int| 0 <= i < blocked.len() && blocked@[i],
        r matches Some(e) ==> (e matches ExecutionError::Deadlock(v) && v@ == blocked_names(blocked@, names@)),
{
    if runnable > 0 {
        return None;
    }
    let mut out: Vec<String> = Vec::new();
    let mut any = false;
    let mut i: usize = 0;
    while i < blocked.len()
        invariant
            blocked.len() == names.len(),
            i <= blocked.len(),
            out@ == blocked_names(blocked@.subrange(0, i as int), names@.subrange(0, i as int)),
            any <==> exists|j: int| 0 <= j < i && blocked@[j],
        decreases blocked.len() - i,
    {
        let ghost b0 = blocked@.subrange(0, i as int);
        let ghost n0 = names@.subrange(0, i as int);
        if blocked[i] {
            out.push(names[i].clone());
            any = true;
        }
        i = i + 1;
        proof {
            let b1 = blocked@.subrange(0, i as int);
            let n1 = names@.subrange(0, i as int);
            assert(b1.drop_last() =~= b0);
            assert(n1.drop_last() =~= n0);
        }
    }
    proof {
        assert(blocked@.subrange(0, blocked.len() as int) =~= blocked@);
        assert(names@.subrange(0, names.len() as int) =~= names@);
    }
    if any {
        Some(ExecutionError::Deadlock(out))
    } else {
        None
    }
}

} // verus!
