//! The time-ordered scheduler queue.
//!
//! Deferred actions are kept in a vector sorted by `(deadline, seq)`, where
//! `seq` is drawn from a counter owned by the scheduler, so that actions due at
//! the same instant come out in the order in which they were scheduled.
//! Cancellation marks a flag that the queue consults lazily: a cancelled entry
//! stays where it is and is dropped when it reaches the front.
use vstd::prelude::*;

use crate::time::{max_time, Duration, MonotonicTime};

verus! {

/// A handle on a scheduled action that can be used to cancel it.
#[derive(Clone, Copy, Debug, PartialEq, Eq, Structural)]
pub struct ActionKey {
    pub id: usize,
}

/// Errors of the scheduling calls.
#[derive(Clone, Copy, Debug, PartialEq, Eq, Structural)]
pub enum SchedulingError {
    /// The deadline lies before the current time.
    DeadlineInPast,
    /// The repetition period of a periodic action is zero.
    InvalidPeriod,
}

/// A scheduled action with its deadline and insertion sequence number.
#[derive(Clone, Copy, Debug)]
pub struct Entry<A> {
    pub deadline: MonotonicTime,
    pub seq: u64,
    pub key: Option<ActionKey>,
    pub period: Option<Duration>,
    pub action: A,
}

/// The abstract state of a scheduler.
pub struct SchedulerView<A> {
    pub queue: Seq<Entry<A>>,
    pub next_seq: nat,
    pub cancelled: Seq<bool>,
    pub time: MonotonicTime,
    pub halted: bool,
}

/// A queue of deferred actions ordered by deadline, then by insertion order.
pub struct Scheduler<A> {
    pub queue: Vec<Entry<A>>,
    pub next_seq: u64,
    pub cancelled: Vec<bool>,
    pub time: MonotonicTime,
    pub halted: bool,
}

impl<A> View for Scheduler<A> {
    type V = SchedulerView<A>;

    open spec fn view(&self) -> SchedulerView<A> {
        SchedulerView {
            queue: self.queue@,
            next_seq: self.next_seq as nat,
            cancelled: self.cancelled@,
            time: self.time,
            halted: self.halted,
        }
    }
}

/// `a` is dispatched before `b`.
pub open spec fn entry_before<A>(a: Entry<A>, b: Entry<A>) -> bool {
    a.deadline@ < b.deadline@ || (a.deadline@ == b.deadline@ && a.seq < b.seq)
}

/// The entries are in dispatch order.
pub open spec fn sorted<A>(q: Seq<Entry<A>>) -> bool {
    forall|i: int, j: int| 0 <= i < j < q.len() ==> entry_before(q[i], q[j])
}

/// `p` splits `q` into the entries due no later than `d` and those due after.
pub open spec fn splits_at<A>(q: Seq<Entry<A>>, d: int, p: int) -> bool {
    &&& 0 <= p <= q.len()
    &&& forall|i: int| 0 <= i < p ==> q[i].deadline@ <= d
    &&& forall|i: int| p <= i < q.len() ==> q[i].deadline@ > d
}

/// Where an entry due at `d` goes: after every entry due no later than `d`.
pub open spec fn insert_pos<A>(q: Seq<Entry<A>>, d: int) -> int {
    choose|p: int| splits_at(q, d, p)
}

/// The entry is keyed and its key has been cancelled.
pub open spec fn is_cancelled<A>(v: SchedulerView<A>, e: Entry<A>) -> bool {
    match e.key {
        Some(k) => k.id < v.cancelled.len() && v.cancelled[k.id as int],
        None => false,
    }
}

/// Schedules `action` at `deadline` with the next sequence number.
pub open spec fn enqueue<A>(
    v: SchedulerView<A>,
    deadline: MonotonicTime,
    key: Option<ActionKey>,
    period: Option<Duration>,
    action: A,
) -> SchedulerView<A> {
    let e = Entry { deadline, seq: v.next_seq as u64, key, period, action };
    SchedulerView {
        queue: v.queue.insert(insert_pos(v.queue, deadline@), e),
        next_seq: v.next_seq + 1,
        ..v
    }
}

/// After a periodic action is dispatched, it is scheduled again one period
/// later, when that instant is representable.
pub open spec fn requeue<A>(v: SchedulerView<A>, e: Entry<A>) -> SchedulerView<A> {
    match e.period {
        Some(p) => if e.deadline@ + p@ <= max_time() {
            enqueue(v, e.deadline.add_spec(p), e.key, e.period, e.action)
        } else {
            v
        },
        None => v,
    }
}

/// The queue without its front entry.
pub open spec fn without_front<A>(v: SchedulerView<A>) -> SchedulerView<A> {
    SchedulerView { queue: v.queue.drop_first(), ..v }
}

/// Removes the first entry that has not been cancelled, dropping the
/// cancelled ones before it, and schedules it again if it is periodic.
pub open spec fn pop_live<A>(v: SchedulerView<A>) -> (SchedulerView<A>, Option<Entry<A>>)
    decreases v.queue.len(),
{
    if v.queue.len() == 0 {
        (v, None)
    } else {
        let e = v.queue[0];
        if is_cancelled(v, e) {
            pop_live(without_front(v))
        } else {
            (requeue(without_front(v), e), Some(e))
        }
    }
}

/// Drops the cancelled entries at the front of the queue.
pub open spec fn purge<A>(v: SchedulerView<A>) -> SchedulerView<A>
    decreases v.queue.len(),
{
    if v.queue.len() > 0 && is_cancelled(v, v.queue[0]) {
        purge(without_front(v))
    } else {
        v
    }
}

/// Takes, in order, the entries at the front of the queue that are due at
/// `d`, looking at no more than `fuel` entries; cancelled ones are dropped
/// and periodic ones scheduled again.
pub open spec fn drain<A>(v: SchedulerView<A>, d: MonotonicTime, fuel: nat) -> (SchedulerView<A>, Seq<Entry<A>>)
    decreases fuel,
{
    if fuel == 0 || v.queue.len() == 0 || v.queue[0].deadline != d {
        (v, Seq::empty())
    } else {
        let e = v.queue[0];
        if is_cancelled(v, e) {
            drain(without_front(v), d, (fuel - 1) as nat)
        } else {
            let (w, rest) = drain(requeue(without_front(v), e), d, (fuel - 1) as nat);
            (w, seq![e].add(rest))
        }
    }
}

/// The actions of a sequence of entries.
pub open spec fn actions_of<A>(es: Seq<Entry<A>>) -> Seq<A> {
    es.map_values(|e: Entry<A>| e.action)
}

/// Marks a key as cancelled; unknown keys are ignored.
pub open spec fn cancel_key<A>(v: SchedulerView<A>, key: ActionKey) -> SchedulerView<A> {
    if key.id < v.cancelled.len() {
        SchedulerView { cancelled: v.cancelled.update(key.id as int, true), ..v }
    } else {
        v
    }
}

/// Raises the halt flag.
pub open spec fn halt_model<A>(v: SchedulerView<A>) -> SchedulerView<A> {
    SchedulerView { halted: true, ..v }
}

/// Well-formedness of a scheduler state.
pub open spec fn view_wf<A>(v: SchedulerView<A>) -> bool {
    &&& v.time.wf()
    &&& sorted(v.queue)
    &&& forall|i: int| 0 <= i < v.queue.len() ==> entry_wf(v, #[trigger] v.queue[i])
}

/// Well-formedness of an entry of the queue of `v`.
pub open spec fn entry_wf<A>(v: SchedulerView<A>, e: Entry<A>) -> bool {
    &&& e.deadline.wf()
    &&& v.time@ <= e.deadline@
    &&& e.seq < v.next_seq
    &&& e.key matches Some(k) ==> k.id < v.cancelled.len()
    &&& e.period matches Some(p) ==> p.wf() && p@ > 0
}

/// Room is left for a sequence number for every entry of the queue and one
/// more, and for one more key.
pub open spec fn has_room<A>(v: SchedulerView<A>) -> bool {
    v.next_seq + v.queue.len() < u64::MAX && v.cancelled.len() < usize::MAX
}

/// A new key is registered, not cancelled.
pub open spec fn add_key<A>(v: SchedulerView<A>) -> SchedulerView<A> {
    SchedulerView { cancelled: v.cancelled.push(false), ..v }
}

/// The key that `add_key` registers.
pub open spec fn fresh_key<A>(v: SchedulerView<A>) -> ActionKey {
    ActionKey { id: v.cancelled.len() as usize }
}

/// The split point of a queue is unique.
pub proof fn lemma_splits_unique<A>(q: Seq<Entry<A>>, d: int, p: int)
    requires
        splits_at(q, d, p),
    ensures
        insert_pos(q, d) == p,
{
    let c = insert_pos(q, d);
    assert(splits_at(q, d, c));
    if c < p {
        assert(q[c].deadline@ <= d);
    } else if p < c {
        assert(q[p].deadline@ <= d);
    }
}

/// Enqueueing an entry due no earlier than the current time preserves
/// well-formedness.
pub proof fn lemma_enqueue_wf<A>(
    v: SchedulerView<A>,
    deadline: MonotonicTime,
    key: Option<ActionKey>,
    period: Option<Duration>,
    action: A,
    p: int,
)
    requires
        view_wf(v),
        v.next_seq < u64::MAX,
        splits_at(v.queue, deadline@, p),
        deadline.wf(),
        v.time@ <= deadline@,
        key matches Some(k) ==> k.id < v.cancelled.len(),
        period matches Some(d) ==> d.wf() && d@ > 0,
    ensures
        view_wf(enqueue(v, deadline, key, period, action)),
        insert_pos(v.queue, deadline@) == p,
{
    lemma_splits_unique(v.queue, deadline@, p);
    let w = enqueue(v, deadline, key, period, action);
    let e = Entry { deadline, seq: v.next_seq as u64, key, period, action };
    let q = w.queue;
    assert(q == v.queue.insert(p, e));
    assert forall|i: int| 0 <= i < q.len() implies entry_wf(w, #[trigger] q[i]) by {
        if i < p {
            assert(q[i] == v.queue[i]);
            assert(entry_wf(v, v.queue[i]));
        } else if i > p {
            assert(q[i] == v.queue[i - 1]);
            assert(entry_wf(v, v.queue[i - 1]));
        }
    }
    assert forall|i: int, j: int| 0 <= i < j < q.len() implies entry_before(q[i], q[j]) by {
        if j < p {
            assert(q[i] == v.queue[i] && q[j] == v.queue[j]);
            assert(entry_before(v.queue[i], v.queue[j]));
        } else if j == p {
            assert(q[i] == v.queue[i] && q[j] == e);
            assert(entry_wf(v, v.queue[i]));
        } else if i < p {
            assert(q[i] == v.queue[i] && q[j] == v.queue[j - 1]);
            assert(entry_before(v.queue[i], v.queue[j - 1]));
        } else if i == p {
            assert(q[i] == e && q[j] == v.queue[j - 1]);
            assert(entry_wf(v, v.queue[j - 1]));
        } else {
            assert(q[i] == v.queue[i - 1] && q[j] == v.queue[j - 1]);
            assert(entry_before(v.queue[i - 1], v.queue[j - 1]));
        }
    }
}

/// Removing the front entry preserves well-formedness.
pub proof fn lemma_without_front_wf<A>(v: SchedulerView<A>)
    requires
        view_wf(v),
        v.queue.len() > 0,
    ensures
        view_wf(without_front(v)),
{
    let w = without_front(v);
    assert forall|i: int| 0 <= i < w.queue.len() implies entry_wf(w, #[trigger] w.queue[i]) by {
        assert(w.queue[i] == v.queue[i + 1]);
        assert(entry_wf(v, v.queue[i + 1]));
    }
    assert forall|i: int, j: int| 0 <= i < j < w.queue.len() implies entry_before(w.queue[i], w.queue[j]) by {
        assert(entry_before(v.queue[i + 1], v.queue[j + 1]));
    }
}

/// Scheduling a dispatched periodic entry again preserves well-formedness
/// when the time has not passed its deadline.
pub proof fn lemma_requeue_wf<A>(v: SchedulerView<A>, e: Entry<A>)
    requires
        view_wf(v),
        v.next_seq < u64::MAX,
        e.deadline.wf(),
        v.time@ <= e.deadline@,
        e.key matches Some(k) ==> k.id < v.cancelled.len(),
        e.period matches Some(p) ==> p.wf() && p@ > 0,
    ensures
        view_wf(requeue(v, e)),
        requeue(v, e).time == v.time,
        requeue(v, e).cancelled == v.cancelled,
        requeue(v, e).halted == v.halted,
        requeue(v, e).next_seq <= v.next_seq + 1,
{
    if let Some(p) = e.period {
        if e.deadline@ + p@ <= max_time() {
            let t = e.deadline.add_spec(p);
            assert(t.wf() && t@ == e.deadline@ + p@) by {
                let n = e.deadline.nanos + p.nanos;
            }
            let pos = choose|pos: int| splits_at(v.queue, t@, pos);
            lemma_split_exists(v.queue, t@);
            lemma_enqueue_wf(v, t, e.key, e.period, e.action, insert_pos(v.queue, t@));
        }
    }
}

/// A sorted queue has a split point for every deadline.
pub proof fn lemma_split_exists<A>(q: Seq<Entry<A>>, d: int)
    requires
        sorted(q),
    ensures
        splits_at(q, d, insert_pos(q, d)),
    decreases q.len(),
{
    if q.len() == 0 {
        assert(splits_at(q, d, 0));
    } else {
        let last = q.len() - 1;
        let init = q.drop_last();
        assert(sorted(init)) by {
            assert forall|i: int, j: int| 0 <= i < j < init.len() implies entry_before(init[i], init[j]) by {
                assert(init[i] == q[i] && init[j] == q[j]);
            }
        }
        lemma_split_exists(init, d);
        let p = insert_pos(init, d);
        if q[last].deadline@ <= d {
            assert(p == init.len()) by {
                if p < init.len() {
                    assert(init[p] == q[p]);
                    assert(entry_before(q[p], q[last]));
                }
            }
            assert forall|i: int| 0 <= i < q.len() implies q[i].deadline@ <= d by {
                if i < last {
                    assert(init[i] == q[i]);
                }
            }
            assert(splits_at(q, d, q.len() as int));
        } else {
            assert forall|i: int| 0 <= i < p implies q[i].deadline@ <= d by {
                assert(init[i] == q[i]);
            }
            assert forall|i: int| p <= i < q.len() implies q[i].deadline@ > d by {
                if i < last {
                    assert(init[i] == q[i]);
                }
            }
            assert(splits_at(q, d, p));
        }
    }
}

impl<A: Copy> Scheduler<A> {
    /// Well-formedness of the scheduler.
    pub open spec fn wf(&self) -> bool {
        view_wf(self@)
    }

    /// An empty scheduler whose clock reads `time`.
    pub fn new(time: MonotonicTime) -> (r: Scheduler<A>)
        requires
            time.wf(),
        ensures
            r.wf(),
            r@.queue.len() == 0,
            r@.next_seq == 0,
            r@.cancelled.len() == 0,
            r@.time == time,
            !r@.halted,
    {
        Scheduler { queue: Vec::new(), next_seq: 0, cancelled: Vec::new(), time, halted: false }
    }

    /// The current simulation time.
    pub fn time(&self) -> (r: MonotonicTime)
        ensures
            r == self@.time,
    {
        self.time
    }

    /// Whether room is left for one more sequence number and one more key.
    pub fn has_room(&self) -> (r: bool)
        ensures
            r == has_room(self@),
    {
        (self.next_seq as u128) + (self.queue.len() as u128) < (u64::MAX as u128) && self.cancelled.len()
            < usize::MAX
    }

    /// Inserts an entry at its place in dispatch order.
    fn enqueue(&mut self, deadline: MonotonicTime, key: Option<ActionKey>, period: Option<Duration>, action: A)
        requires
            old(self).wf(),
            old(self).next_seq < u64::MAX,
            deadline.wf(),
            old(self)@.time@ <= deadline@,
            key matches Some(k) ==> k.id < old(self)@.cancelled.len(),
            period matches Some(d) ==> d.wf() && d@ > 0,
        ensures
            final(self).wf(),
            final(self)@ == enqueue(old(self)@, deadline, key, period, action),
    {
        let mut p: usize = 0;
        let n = self.queue.len();
        while p < n && self.queue[p].deadline.le(&deadline)
            invariant
                self.wf(),
                self@ == old(self)@,
                deadline.wf(),
                n == self.queue.len(),
                0 <= p <= n,
                forall|i: int| 0 <= i < p ==> self.queue@[i].deadline@ <= deadline@,
            decreases n - p,
        {
            proof {
                assert(entry_wf(self@, self.queue@[p as int]));
            }
            p = p + 1;
        }
        proof {
            if p < n {
                assert(entry_wf(self@, self.queue@[p as int]));
                assert forall|i: int| p <= i < n implies self.queue@[i].deadline@ > deadline@ by {
                    if i > p {
                        assert(entry_before(self.queue@[p as int], self.queue@[i]));
                    }
                }
            }
            lemma_enqueue_wf(self@, deadline, key, period, action, p as int);
        }
        let e = Entry { deadline, seq: self.next_seq, key, period, action };
        self.queue.insert(p, e);
        self.next_seq = self.next_seq + 1;
        proof {
            assert(self@ == enqueue(old(self)@, deadline, key, period, action));
        }
    }

    /// Schedules a periodic entry again one period after its deadline.
    fn requeue(&mut self, e: Entry<A>)
        requires
            old(self).wf(),
            old(self).next_seq < u64::MAX,
            e.deadline.wf(),
            old(self)@.time@ <= e.deadline@,
            e.key matches Some(k) ==> k.id < old(self)@.cancelled.len(),
            e.period matches Some(p) ==> p.wf() && p@ > 0,
        ensures
            final(self).wf(),
            final(self)@ == requeue(old(self)@, e),
    {
        if let Some(p) = e.period {
            if let Some(t) = e.deadline.checked_add(p) {
                self.enqueue(t, e.key, e.period, e.action);
            }
        }
    }

    /// Whether the entry is keyed with a cancelled key.
    fn entry_cancelled(&self, e: &Entry<A>) -> (r: bool)
        ensures
            r == is_cancelled(self@, *e),
    {
        match e.key {
            Some(k) => k.id < self.cancelled.len() && self.cancelled[k.id],
            None => false,
        }
    }

    /// Removes the front entry.
    fn remove_front(&mut self) -> (e: Entry<A>)
        requires
            old(self).wf(),
            old(self).queue.len() > 0,
        ensures
            final(self).wf(),
            final(self)@ == without_front(old(self)@),
            e == old(self)@.queue[0],
            entry_wf(old(self)@, e),
    {
        proof {
            lemma_without_front_wf(self@);
            assert(entry_wf(self@, self.queue@[0]));
        }
        let e = self.queue.remove(0);
        proof {
            assert(self.queue@ =~= old(self)@.queue.drop_first());
        }
        e
    }

    /// Schedules `action` at `deadline`.
    pub fn schedule(&mut self, deadline: MonotonicTime, action: A) -> (r: Result<(), SchedulingError>)
        requires
            old(self).wf(),
            has_room(old(self)@),
            deadline.wf(),
        ensures
            final(self).wf(),
            r is Err <==> deadline@ < old(self)@.time@,
            r is Err ==> r == Err::<(), _>(SchedulingError::DeadlineInPast) && final(self)@ == old(self)@,
            r is Ok ==> final(self)@ == enqueue(old(self)@, deadline, None, None, action),
    {
        if deadline.lt(&self.time) {
            return Err(SchedulingError::DeadlineInPast);
        }
        self.enqueue(deadline, None, None, action);
        Ok(())
    }

    /// Registers a new key.
    fn new_key(&mut self) -> (k: ActionKey)
        requires
            old(self).wf(),
            old(self).cancelled.len() < usize::MAX,
        ensures
            final(self).wf(),
            final(self)@ == add_key(old(self)@),
            k == fresh_key(old(self)@),
    {
        let k = ActionKey { id: self.cancelled.len() };
        self.cancelled.push(false);
        proof {
            let v = self@;
            assert forall|i: int| 0 <= i < v.queue.len() implies entry_wf(v, #[trigger] v.queue[i]) by {
                assert(entry_wf(old(self)@, old(self)@.queue[i]));
            }
        }
        k
    }

    /// Schedules `action` at `deadline` and returns a key that cancels it.
    pub fn schedule_keyed(&mut self, deadline: MonotonicTime, action: A) -> (r: Result<ActionKey, SchedulingError>)
        requires
            old(self).wf(),
            has_room(old(self)@),
            deadline.wf(),
        ensures
            final(self).wf(),
            r is Err <==> deadline@ < old(self)@.time@,
            r is Err ==> r == Err::<ActionKey, _>(SchedulingError::DeadlineInPast) && final(self)@ == old(self)@,
            r is Ok ==> r == Ok::<_, SchedulingError>(fresh_key(old(self)@)) && final(self)@ == enqueue(
                add_key(old(self)@),
                deadline,
                Some(fresh_key(old(self)@)),
                None,
                action,
            ),
    {
        if deadline.lt(&self.time) {
            return Err(SchedulingError::DeadlineInPast);
        }
        let k = self.new_key();
        self.enqueue(deadline, Some(k), None, action);
        Ok(k)
    }

    /// Schedules `action` at `deadline` and then every `period`.
    pub fn schedule_periodic(&mut self, deadline: MonotonicTime, period: Duration, action: A) -> (r: Result<(), SchedulingError>)
        requires
            old(self).wf(),
            has_room(old(self)@),
            deadline.wf(),
            period.wf(),
        ensures
            final(self).wf(),
            r is Err <==> deadline@ < old(self)@.time@ || period@ == 0,
            deadline@ < old(self)@.time@ ==> r == Err::<(), _>(SchedulingError::DeadlineInPast),
            old(self)@.time@ <= deadline@ && period@ == 0 ==> r == Err::<(), _>(SchedulingError::InvalidPeriod),
            r is Err ==> final(self)@ == old(self)@,
            r is Ok ==> final(self)@ == enqueue(old(self)@, deadline, None, Some(period), action),
    {
        if deadline.lt(&self.time) {
            return Err(SchedulingError::DeadlineInPast);
        }
        if period.is_zero() {
            return Err(SchedulingError::InvalidPeriod);
        }
        self.enqueue(deadline, None, Some(period), action);
        Ok(())
    }

    /// Schedules `action` at `deadline` and then every `period`, and returns a
    /// key that cancels all the repetitions still to come.
    pub fn schedule_keyed_periodic(
        &mut self,
        deadline: MonotonicTime,
        period: Duration,
        action: A,
    ) -> (r: Result<ActionKey, SchedulingError>)
        requires
            old(self).wf(),
            has_room(old(self)@),
            deadline.wf(),
            period.wf(),
        ensures
            final(self).wf(),
            r is Err <==> deadline@ < old(self)@.time@ || period@ == 0,
            deadline@ < old(self)@.time@ ==> r == Err::<ActionKey, _>(SchedulingError::DeadlineInPast),
            old(self)@.time@ <= deadline@ && period@ == 0 ==> r == Err::<ActionKey, _>(SchedulingError::InvalidPeriod),
            r is Err ==> final(self)@ == old(self)@,
            r is Ok ==> r == Ok::<_, SchedulingError>(fresh_key(old(self)@)) && final(self)@ == enqueue(
                add_key(old(self)@),
                deadline,
                Some(fresh_key(old(self)@)),
                Some(period),
                action,
            ),
    {
        if deadline.lt(&self.time) {
            return Err(SchedulingError::DeadlineInPast);
        }
        if period.is_zero() {
            return Err(SchedulingError::InvalidPeriod);
        }
        let k = self.new_key();
        self.enqueue(deadline, Some(k), Some(period), action);
        Ok(k)
    }

    /// Cancels the action named by `key`, and all its repetitions if it is
    /// periodic. The entry stays in the queue and is dropped when it comes up.
    pub fn cancel(&mut self, key: ActionKey)
        requires
            old(self).wf(),
        ensures
            final(self).wf(),
            final(self)@ == cancel_key(old(self)@, key),
    {
        if key.id < self.cancelled.len() {
            self.cancelled.set(key.id, true);
            proof {
                let v = self@;
                assert forall|i: int| 0 <= i < v.queue.len() implies entry_wf(v, #[trigger] v.queue[i]) by {
                    assert(entry_wf(old(self)@, old(self)@.queue[i]));
                }
            }
        }
    }

    /// Whether `key` has been cancelled.
    pub fn is_cancelled(&self, key: ActionKey) -> (r: bool)
        ensures
            r == (key.id < self@.cancelled.len() && self@.cancelled[key.id as int]),
    {
        key.id < self.cancelled.len() && self.cancelled[key.id]
    }

    /// Asks the simulation to stop at the next epoch boundary.
    pub fn halt(&mut self)
        requires
            old(self).wf(),
        ensures
            final(self).wf(),
            final(self)@ == halt_model(old(self)@),
    {
        self.halted = true;
    }

    /// Whether a halt was requested.
    pub fn is_halted(&self) -> (r: bool)
        ensures
            r == self@.halted,
    {
        self.halted
    }

    /// Removes and returns the first entry that was not cancelled; a periodic
    /// entry is scheduled again one period later.
    pub fn pop_next(&mut self) -> (r: Option<Entry<A>>)
        requires
            old(self).wf(),
            has_room(old(self)@),
        ensures
            final(self).wf(),
            (final(self)@, r) == pop_live(old(self)@),
    {
        while self.queue.len() > 0
            invariant
                self.wf(),
                pop_live(self@) == pop_live(old(self)@),
                self.next_seq == old(self).next_seq,
                self.queue.len() <= old(self).queue.len(),
                has_room(old(self)@),
            decreases self.queue.len(),
        {
            let e = self.remove_front();
            if self.entry_cancelled(&e) {
                continue;
            }
            self.requeue(e);
            return Some(e);
        }
        None
    }

    /// Drops the cancelled entries at the front of the queue.
    pub fn purge(&mut self)
        requires
            old(self).wf(),
        ensures
            final(self).wf(),
            final(self)@ == purge(old(self)@),
            final(self).next_seq == old(self).next_seq,
            final(self).queue.len() <= old(self).queue.len(),
            final(self)@.cancelled == old(self)@.cancelled,
            final(self)@.time == old(self)@.time,
            final(self)@.halted == old(self)@.halted,
    {
        while self.queue.len() > 0 && self.entry_cancelled(&self.queue[0])
            invariant
                self.wf(),
                purge(self@) == purge(old(self)@),
                self.next_seq == old(self).next_seq,
                self.queue.len() <= old(self).queue.len(),
                self.cancelled@ == old(self).cancelled@,
                self.time == old(self).time,
                self.halted == old(self).halted,
            decreases self.queue.len(),
        {
            self.remove_front();
        }
    }

    /// Deadline of the first entry that was not cancelled.
    pub fn peek_deadline(&mut self) -> (r: Option<MonotonicTime>)
        requires
            old(self).wf(),
        ensures
            final(self).wf(),
            final(self)@ == purge(old(self)@),
            final(self).next_seq == old(self).next_seq,
            final(self).queue.len() <= old(self).queue.len(),
            final(self)@.cancelled == old(self)@.cancelled,
            final(self)@.time == old(self)@.time,
            final(self)@.halted == old(self)@.halted,
            r == (if final(self)@.queue.len() > 0 { Some(final(self)@.queue[0].deadline) } else { None::<MonotonicTime> }),
    {
        self.purge();
        if self.queue.len() > 0 {
            Some(self.queue[0].deadline)
        } else {
            None
        }
    }

    /// Moves the clock forward to `t`, which no entry precedes.
    pub fn advance_to(&mut self, t: MonotonicTime)
        requires
            old(self).wf(),
            t.wf(),
            old(self)@.time@ <= t@,
            old(self)@.queue.len() > 0 ==> t@ <= old(self)@.queue[0].deadline@,
        ensures
            final(self).wf(),
            final(self)@ == (SchedulerView { time: t, ..old(self)@ }),
    {
        self.time = t;
        proof {
            let v = self@;
            assert forall|i: int| 0 <= i < v.queue.len() implies entry_wf(v, #[trigger] v.queue[i]) by {
                assert(entry_wf(old(self)@, old(self)@.queue[i]));
                if i > 0 {
                    assert(entry_before(v.queue[0], v.queue[i]));
                }
            }
        }
    }

    /// Takes, in dispatch order, the actions due at `d` at the front of the
    /// queue, dropping cancelled entries and scheduling periodic ones again.
    pub fn drain_due(&mut self, d: MonotonicTime) -> (r: Vec<A>)
        requires
            old(self).wf(),
            has_room(old(self)@),
        ensures
            final(self).wf(),
            final(self)@ == drain(old(self)@, d, old(self)@.queue.len()).0,
            r@ == actions_of(drain(old(self)@, d, old(self)@.queue.len()).1),
            final(self)@.time == old(self)@.time,
            final(self)@.halted == old(self)@.halted,
    {
        let n = self.queue.len();
        let mut fuel: usize = n;
        let mut out: Vec<A> = Vec::new();
        let ghost mut taken: Seq<Entry<A>> = Seq::empty();
        while fuel > 0 && self.queue.len() > 0 && self.queue[0].deadline == d
            invariant
                self.wf(),
                fuel <= n,
                self.time == old(self).time,
                self.halted == old(self).halted,
                self.next_seq + fuel <= old(self).next_seq + n,
                old(self).next_seq + n < u64::MAX,
                drain(old(self)@, d, n as nat).0 == drain(self@, d, fuel as nat).0,
                drain(old(self)@, d, n as nat).1 == taken + drain(self@, d, fuel as nat).1,
                out@ == actions_of(taken),
            decreases fuel,
        {
            let e = self.remove_front();
            fuel = fuel - 1;
            if self.entry_cancelled(&e) {
                continue;
            }
            let ghost prev = taken;
            self.requeue(e);
            out.push(e.action);
            proof {
                taken = prev.push(e);
                let t = drain(self@, d, fuel as nat).1;
                assert(prev + (seq![e] + t) =~= taken + t);
                assert(out@ =~= actions_of(taken));
            }
        }
        proof {
            assert(taken + Seq::<Entry<A>>::empty() =~= taken);
        }
        out
    }
}

/// Every entry of the queue after `enqueue` is the new entry or was in the
/// queue before.
pub proof fn lemma_enqueue_members<A>(
    v: SchedulerView<A>,
    deadline: MonotonicTime,
    key: Option<ActionKey>,
    period: Option<Duration>,
    action: A,
)
    requires
        view_wf(v),
        v.next_seq < u64::MAX,
        deadline.wf(),
        v.time@ <= deadline@,
    ensures
        ({
            let w = enqueue(v, deadline, key, period, action);
            let e = Entry { deadline, seq: v.next_seq as u64, key, period, action };
            &&& w.queue.len() == v.queue.len() + 1
            &&& w.queue[insert_pos(v.queue, deadline@)] == e
            &&& 0 <= insert_pos(v.queue, deadline@) <= v.queue.len()
            &&& forall|i: int| 0 <= i < w.queue.len() ==> #[trigger] w.queue[i] == e || v.queue.contains(w.queue[i])
        }),
{
    lemma_split_exists(v.queue, deadline@);
    let w = enqueue(v, deadline, key, period, action);
    let p = insert_pos(v.queue, deadline@);
    assert forall|i: int| 0 <= i < w.queue.len() implies #[trigger] w.queue[i] == Entry {
        deadline,
        seq: v.next_seq as u64,
        key,
        period,
        action,
    } || v.queue.contains(w.queue[i]) by {
        if i < p {
            assert(w.queue[i] == v.queue[i]);
        } else if i > p {
            assert(w.queue[i] == v.queue[i - 1]);
        }
    }
}

/// What `pop_live` does on a well-formed state: the state stays well-formed,
/// the entry returned is the first one of the queue that was not cancelled,
/// and every entry left comes after it in dispatch order.
pub proof fn lemma_pop_live<A>(v: SchedulerView<A>)
    requires
        view_wf(v),
        v.next_seq < u64::MAX,
    ensures
        ({
            let (w, r) = pop_live(v);
            &&& view_wf(w)
            &&& w.cancelled == v.cancelled
            &&& w.time == v.time
            &&& w.halted == v.halted
            &&& w.next_seq <= v.next_seq + 1
            &&& r matches Some(e) ==> exists|k: int|
                0 <= k < v.queue.len() && v.queue[k] == e && !is_cancelled(v, e) && forall|j: int|
                    0 <= j < k ==> is_cancelled(v, #[trigger] v.queue[j])
            &&& r matches Some(e) ==> forall|i: int| 0 <= i < w.queue.len() ==> entry_before(e, #[trigger] w.queue[i])
            &&& r is None ==> forall|j: int| 0 <= j < v.queue.len() ==> is_cancelled(v, #[trigger] v.queue[j])
        }),
    decreases v.queue.len(),
{
    if v.queue.len() == 0 {
        return;
    }
    let e = v.queue[0];
    let rest = without_front(v);
    lemma_without_front_wf(v);
    assert(entry_wf(v, e));
    if is_cancelled(v, e) {
        lemma_pop_live(rest);
        let (w, r) = pop_live(rest);
        if let Some(x) = r {
            let k = choose|k: int|
                0 <= k < rest.queue.len() && rest.queue[k] == x && !is_cancelled(rest, x) && forall|j: int|
                    0 <= j < k ==> is_cancelled(rest, #[trigger] rest.queue[j]);
            assert(v.queue[k + 1] == x);
            assert forall|j: int| 0 <= j < k + 1 implies is_cancelled(v, #[trigger] v.queue[j]) by {
                if j > 0 {
                    assert(v.queue[j] == rest.queue[j - 1]);
                }
            }
        } else {
            assert forall|j: int| 0 <= j < v.queue.len() implies is_cancelled(v, #[trigger] v.queue[j]) by {
                if j > 0 {
                    assert(v.queue[j] == rest.queue[j - 1]);
                }
            }
        }
    } else {
        lemma_requeue_wf(rest, e);
        let w = requeue(rest, e);
        assert(v.queue[0] == e);
        assert forall|i: int| 0 <= i < rest.queue.len() implies entry_before(e, #[trigger] rest.queue[i]) by {
            assert(rest.queue[i] == v.queue[i + 1]);
        }
        if let Some(p) = e.period {
            if e.deadline@ + p@ <= max_time() {
                let t = e.deadline.add_spec(p);
                lemma_enqueue_members(rest, t, e.key, e.period, e.action);
                assert forall|i: int| 0 <= i < w.queue.len() implies entry_before(e, #[trigger] w.queue[i]) by {
                    if !rest.queue.contains(w.queue[i]) {
                    } else {
                        let m = choose|m: int| 0 <= m < rest.queue.len() && rest.queue[m] == w.queue[i];
                        assert(entry_before(e, rest.queue[m]));
                    }
                }
            }
        }
    }
}

/// Dispatch order: of two actions taken one after the other from a
/// well-formed queue, the first is due no later than the second, and among
/// actions due at the same instant the one scheduled first comes first.
pub proof fn lemma_dispatch_order<A>(v: SchedulerView<A>)
    requires
        view_wf(v),
        v.next_seq < u64::MAX,
    ensures
        ({
            let (w, r1) = pop_live(v);
            let (_, r2) = pop_live(w);
            r1 matches Some(e1) ==> (r2 matches Some(e2) ==> entry_before(e1, e2) && e1.deadline@ <= e2.deadline@)
        }),
{
    lemma_pop_live(v);
    let (w, r1) = pop_live(v);
    if let Some(e1) = r1 {
        if w.next_seq < u64::MAX {
            lemma_pop_live(w);
        } else {
            lemma_pop_live_member(w);
        }
        let (_, r2) = pop_live(w);
        if let Some(e2) = r2 {
            let k = choose|k: int| 0 <= k < w.queue.len() && w.queue[k] == e2;
            assert(entry_before(e1, w.queue[k]));
        }
    }
}

/// The entry that `pop_live` returns is one of the queue.
pub proof fn lemma_pop_live_member<A>(v: SchedulerView<A>)
    ensures
        pop_live(v).1 matches Some(e) ==> exists|k: int| 0 <= k < v.queue.len() && v.queue[k] == e,
    decreases v.queue.len(),
{
    if v.queue.len() > 0 && is_cancelled(v, v.queue[0]) {
        let rest = without_front(v);
        lemma_pop_live_member(rest);
        if let Some(e) = pop_live(rest).1 {
            let k = choose|k: int| 0 <= k < rest.queue.len() && rest.queue[k] == e;
            assert(v.queue[k + 1] == e);
        }
    }
}

/// First in, first out: of two actions scheduled one after the other at the
/// same deadline, the first stands ahead of the second in the queue, and no
/// dispatch takes the second while the first is waiting.
pub proof fn lemma_same_deadline_fifo<A>(v: SchedulerView<A>, deadline: MonotonicTime, a: A, b: A)
    requires
        view_wf(v),
        v.next_seq + 2 < u64::MAX,
        deadline.wf(),
        v.time@ <= deadline@,
    ensures
        ({
            let v1 = enqueue(v, deadline, None, None, a);
            let v2 = enqueue(v1, deadline, None, None, b);
            let ea = Entry { deadline, seq: v.next_seq as u64, key: None, period: None, action: a };
            let eb = Entry { deadline, seq: v1.next_seq as u64, key: None, period: None, action: b };
            &&& exists|i: int, j: int| 0 <= i < j < v2.queue.len() && v2.queue[i] == ea && v2.queue[j] == eb
            &&& pop_live(v2).1 != Some(eb)
        }),
{
    let v1 = enqueue(v, deadline, None, None, a);
    let v2 = enqueue(v1, deadline, None, None, b);
    let ea = Entry { deadline, seq: v.next_seq as u64, key: None, period: None, action: a };
    let eb = Entry { deadline, seq: v1.next_seq as u64, key: None, period: None, action: b };
    lemma_split_exists(v.queue, deadline@);
    lemma_enqueue_wf(v, deadline, None, None, a, insert_pos(v.queue, deadline@));
    lemma_enqueue_members(v, deadline, None, None, a);
    lemma_split_exists(v1.queue, deadline@);
    lemma_enqueue_wf(v1, deadline, None, None, b, insert_pos(v1.queue, deadline@));
    lemma_enqueue_members(v1, deadline, None, None, b);
    let i0 = insert_pos(v.queue, deadline@);
    let j = insert_pos(v1.queue, deadline@);
    assert(v1.queue[i0] == ea);
    assert(v1.queue[i0].deadline@ <= deadline@);
    assert(i0 < j);
    assert(v2.queue[i0] == ea);
    assert(v2.queue[j] == eb);
    lemma_pop_live(v2);
    if let Some(e) = pop_live(v2).1 {
        let k = choose|k: int|
            0 <= k < v2.queue.len() && v2.queue[k] == e && !is_cancelled(v2, e) && forall|m: int|
                0 <= m < k ==> is_cancelled(v2, #[trigger] v2.queue[m]);
        if k > i0 {
            assert(is_cancelled(v2, v2.queue[i0]));
        }
        assert(k <= i0);
        if k < i0 {
            assert(entry_before(v2.queue[k], v2.queue[j]));
        }
    }
}

/// Cancellation: once the key of an action is cancelled, no dispatch takes an
/// entry with that key, and the key stays cancelled.
pub proof fn lemma_cancelled_never_dispatched<A>(v: SchedulerView<A>, key: ActionKey)
    requires
        view_wf(v),
        v.next_seq < u64::MAX,
        key.id < v.cancelled.len(),
    ensures
        ({
            let c = cancel_key(v, key);
            let (w, r) = pop_live(c);
            &&& c.cancelled[key.id as int]
            &&& r matches Some(e) ==> e.key != Some(key)
            &&& w.cancelled[key.id as int]
        }),
{
    let c = cancel_key(v, key);
    assert forall|i: int| 0 <= i < c.queue.len() implies entry_wf(c, #[trigger] c.queue[i]) by {
        assert(entry_wf(v, v.queue[i]));
    }
    lemma_pop_live(c);
}

/// Halting twice is halting once, and halting drops no action.
pub proof fn lemma_halt_idempotent<A>(v: SchedulerView<A>)
    ensures
        halt_model(halt_model(v)) == halt_model(v),
        halt_model(v).queue == v.queue,
        halt_model(v).cancelled == v.cancelled,
        halt_model(v).time == v.time,
        halt_model(v).next_seq == v.next_seq,
{
}

/// The state after `n` halt requests.
pub open spec fn halt_times<A>(v: SchedulerView<A>, n: nat) -> SchedulerView<A>
    decreases n,
{
    if n == 0 {
        v
    } else {
        halt_model(halt_times(v, (n - 1) as nat))
    }
}

/// Halting any number of times, at least once, is halting once.
pub proof fn lemma_halt_times<A>(v: SchedulerView<A>, n: nat)
    requires
        n >= 1,
    ensures
        halt_times(v, n) == halt_model(v),
    decreases n,
{
    assert(halt_times(v, 0) == v);
    if n > 1 {
        lemma_halt_times(v, (n - 1) as nat);
        assert(halt_times(v, n) == halt_model(halt_times(v, (n - 1) as nat)));
        lemma_halt_idempotent(v);
    } else {
        assert(halt_times(v, 1) == halt_model(halt_times(v, 0)));
    }
}

/// A dispatched periodic action is scheduled again exactly one period after
/// its deadline, with the same key, period and action.
pub proof fn lemma_periodic_requeue<A>(v: SchedulerView<A>)
    requires
        view_wf(v),
        v.next_seq < u64::MAX,
    ensures
        ({
            let (w, r) = pop_live(v);
            r matches Some(e) ==> (e.period matches Some(p) ==> (e.deadline@ + p@ <= max_time() ==> exists|i: int|
                0 <= i < w.queue.len() && #[trigger] w.queue[i] == Entry {
                    deadline: e.deadline.add_spec(p),
                    seq: v.next_seq as u64,
                    key: e.key,
                    period: e.period,
                    action: e.action,
                } && w.queue[i].deadline@ == e.deadline@ + p@))
        }),
    decreases v.queue.len(),
{
    if v.queue.len() == 0 {
        return;
    }
    let e = v.queue[0];
    let rest = without_front(v);
    lemma_without_front_wf(v);
    assert(entry_wf(v, e));
    if is_cancelled(v, e) {
        lemma_periodic_requeue(rest);
    } else if let Some(p) = e.period {
        if e.deadline@ + p@ <= max_time() {
            let t = e.deadline.add_spec(p);
            assert(t.wf() && t@ == e.deadline@ + p@) by {
                let n = e.deadline.nanos + p.nanos;
            }
            lemma_enqueue_members(rest, t, e.key, e.period, e.action);
            let i = insert_pos(rest.queue, t@);
            let w = pop_live(v).0;
            assert(w.queue[i].deadline@ == e.deadline@ + p@);
        }
    }
}

/// Dropping the cancelled entries at the front keeps a state well-formed and
/// changes nothing but the queue, which only shrinks.
pub proof fn lemma_purge<A>(v: SchedulerView<A>)
    requires
        view_wf(v),
    ensures
        view_wf(purge(v)),
        purge(v).time == v.time,
        purge(v).cancelled == v.cancelled,
        purge(v).next_seq == v.next_seq,
        purge(v).halted == v.halted,
        purge(v).queue.len() <= v.queue.len(),
        purge(v).queue.len() > 0 ==> !is_cancelled(v, purge(v).queue[0]),
    decreases v.queue.len(),
{
    if v.queue.len() > 0 && is_cancelled(v, v.queue[0]) {
        lemma_without_front_wf(v);
        lemma_purge(without_front(v));
    }
}

/// What `drain` does on a well-formed state whose clock reads `d`: the state
/// stays well-formed with the same clock and flags, and the entries taken
/// are entries of the queue, due at `d`, not cancelled, in increasing order
/// of insertion.
pub proof fn lemma_drain<A>(v: SchedulerView<A>, d: MonotonicTime, fuel: nat)
    requires
        view_wf(v),
        v.time == d,
        v.next_seq + fuel < u64::MAX,
    ensures
        ({
            let (w, es) = drain(v, d, fuel);
            &&& view_wf(w)
            &&& w.time == v.time
            &&& w.cancelled == v.cancelled
            &&& w.halted == v.halted
            &&& w.next_seq <= v.next_seq + fuel
            &&& w.queue.len() <= v.queue.len()
            &&& forall|i: int| 0 <= i < es.len() ==> (#[trigger] es[i]).deadline == d
            &&& forall|i: int| 0 <= i < es.len() ==> !is_cancelled(v, #[trigger] es[i])
            &&& forall|i: int| 0 <= i < es.len() ==> exists|k: int| 0 <= k < v.queue.len() && v.queue[k] == #[trigger] es[i]
            &&& forall|i: int, j: int| 0 <= i < j < es.len() ==> entry_before(es[i], es[j])
        }),
    decreases fuel,
{
    if fuel == 0 || v.queue.len() == 0 || v.queue[0].deadline != d {
        return;
    }
    let e = v.queue[0];
    let f = (fuel - 1) as nat;
    let rest = without_front(v);
    lemma_without_front_wf(v);
    assert(entry_wf(v, e));
    assert forall|m: int| 0 <= m < rest.queue.len() implies v.queue[m + 1] == #[trigger] rest.queue[m] by {
    }
    if is_cancelled(v, e) {
        lemma_drain(rest, d, f);
        let (w, es) = drain(rest, d, f);
        assert forall|i: int| 0 <= i < es.len() implies exists|k: int|
            0 <= k < v.queue.len() && v.queue[k] == #[trigger] es[i] by {
            let m = choose|m: int| 0 <= m < rest.queue.len() && rest.queue[m] == es[i];
            assert(v.queue[m + 1] == es[i]);
        }
    } else {
        lemma_requeue_wf(rest, e);
        let r = requeue(rest, e);
        if let Some(p) = e.period {
            if e.deadline@ + p@ <= max_time() {
                assert(e.deadline.add_spec(p).wf()) by {
                    let n = e.deadline.nanos + p.nanos;
                }
                lemma_enqueue_members(rest, e.deadline.add_spec(p), e.key, e.period, e.action);
            }
        }
        assert(r.queue.len() <= v.queue.len());
        lemma_drain(r, d, f);
        let (w, tail) = drain(r, d, f);
        let es = seq![e].add(tail);
        assert(drain(v, d, fuel) == (w, es));
        assert forall|j: int| 0 <= j < tail.len() implies exists|m: int|
            0 <= m < rest.queue.len() && rest.queue[m] == #[trigger] tail[j] by {
            let k = choose|k: int| 0 <= k < r.queue.len() && r.queue[k] == tail[j];
            if let Some(p) = e.period {
                if e.deadline@ + p@ <= max_time() {
                    let t = e.deadline.add_spec(p);
                    lemma_enqueue_members(rest, t, e.key, e.period, e.action);
                    assert(t@ == e.deadline@ + p@) by {
                        let n = e.deadline.nanos + p.nanos;
                    }
                    assert(tail[j].deadline == d);
                    if r.queue[k] == (Entry { deadline: t, seq: rest.next_seq as u64, key: e.key, period: e.period, action: e.action }) {
                        assert(false);
                    }
                    assert(rest.queue.contains(r.queue[k]));
                }
            }
        }
        assert forall|i: int| 0 <= i < es.len() implies exists|k: int|
            0 <= k < v.queue.len() && v.queue[k] == #[trigger] es[i] by {
            if i == 0 {
                assert(v.queue[0] == es[0]);
            } else {
                assert(es[i] == tail[i - 1]);
                let m = choose|m: int| 0 <= m < rest.queue.len() && rest.queue[m] == tail[i - 1];
                assert(v.queue[m + 1] == es[i]);
            }
        }
        assert forall|i: int| 0 <= i < es.len() implies (#[trigger] es[i]).deadline == d by {
            if i > 0 {
                assert(es[i] == tail[i - 1]);
            }
        }
        assert forall|i: int| 0 <= i < es.len() implies !is_cancelled(v, #[trigger] es[i]) by {
            if i > 0 {
                assert(es[i] == tail[i - 1]);
                assert(!is_cancelled(r, tail[i - 1]));
            }
        }
        assert forall|i: int, j: int| 0 <= i < j < es.len() implies entry_before(es[i], es[j]) by {
            assert(es[j] == tail[j - 1]);
            if i == 0 {
                let m = choose|m: int| 0 <= m < rest.queue.len() && rest.queue[m] == tail[j - 1];
                assert(entry_before(v.queue[0], v.queue[m + 1]));
            } else {
                assert(es[i] == tail[i - 1]);
            }
        }
    }
}

/// A newly scheduled entry is the latest in insertion order: it carries a
/// larger sequence number than every entry already queued, and it stands
/// behind every queued entry due no later than it, so among actions due at
/// the same instant it is dispatched last.
pub proof fn lemma_enqueue_goes_last<A>(
    v: SchedulerView<A>,
    deadline: MonotonicTime,
    key: Option<ActionKey>,
    period: Option<Duration>,
    action: A,
)
    requires
        view_wf(v),
        v.next_seq < u64::MAX,
        deadline.wf(),
        v.time@ <= deadline@,
    ensures
        ({
            let w = enqueue(v, deadline, key, period, action);
            let p = insert_pos(v.queue, deadline@);
            &&& forall|i: int| 0 <= i < v.queue.len() ==> (#[trigger] v.queue[i]).seq < w.queue[p].seq
            &&& forall|i: int| 0 <= i < p ==> w.queue[i] == v.queue[i] && (#[trigger] w.queue[i]).deadline@ <= deadline@
            &&& w.queue[p].deadline == deadline && w.queue[p].action == action
        }),
{
    lemma_split_exists(v.queue, deadline@);
    lemma_enqueue_members(v, deadline, key, period, action);
    assert forall|i: int| 0 <= i < v.queue.len() implies (#[trigger] v.queue[i]).seq < v.next_seq by {
        assert(entry_wf(v, v.queue[i]));
    }
}

} // verus!
