//! The port graph: output ports broadcast messages to the mailboxes of the
//! models they are connected to.
//!
//! Every message is stamped with a sequence number drawn from one counter for
//! the whole graph, so a message sent while another is being handled carries
//! a larger number than it. Each mailbox delivers in the order of arrival,
//! which is also the order of the stamps; this is what makes messaging
//! causal.
use vstd::prelude::*;

use crate::mailbox::{Mailbox, SendError};

verus! {

/// A message in a mailbox, with its sequence number.
#[derive(Clone, Copy, Debug)]
pub struct Message<T> {
    pub seq: u64,
    pub payload: T,
}

/// The abstract state of a port graph.
pub struct NetworkView<T> {
    pub boxes: Seq<Seq<Message<T>>>,
    pub caps: Seq<usize>,
    pub closed: Seq<bool>,
    pub outputs: Seq<Seq<usize>>,
    pub next_seq: nat,
}

/// Models with their mailboxes, and output ports with their connections.
pub struct Network<T> {
    pub mailboxes: Vec<Mailbox<Message<T>>>,
    pub outputs: Vec<Vec<usize>>,
    pub next_seq: u64,
}

impl<T> View for Network<T> {
    type V = NetworkView<T>;

    open spec fn view(&self) -> NetworkView<T> {
        NetworkView {
            boxes: self.mailboxes@.map_values(|m: Mailbox<Message<T>>| m@),
            caps: self.mailboxes@.map_values(|m: Mailbox<Message<T>>| m.capacity),
            closed: self.mailboxes@.map_values(|m: Mailbox<Message<T>>| m.closed),
            outputs: self.outputs@.map_values(|o: Vec<usize>| o@),
            next_seq: self.next_seq as nat,
        }
    }
}

/// The targets of an output port are distinct models of the graph.
pub open spec fn targets_wf(ts: Seq<usize>, n: nat) -> bool {
    &&& forall|i: int| 0 <= i < ts.len() ==> ts[i] < n
    &&& forall|i: int, j: int| 0 <= i < j < ts.len() ==> ts[i] != ts[j]
}

/// The stamps of a mailbox increase from front to back and were all drawn.
pub open spec fn box_wf<T>(q: Seq<Message<T>>, next_seq: nat) -> bool {
    &&& forall|i: int, j: int| 0 <= i < j < q.len() ==> q[i].seq < q[j].seq
    &&& forall|i: int| 0 <= i < q.len() ==> q[i].seq < next_seq
}

/// Well-formedness of a port graph.
pub open spec fn network_wf<T>(v: NetworkView<T>) -> bool {
    &&& v.boxes.len() <= usize::MAX
    &&& v.caps.len() == v.boxes.len()
    &&& v.closed.len() == v.boxes.len()
    &&& forall|o: int| 0 <= o < v.outputs.len() ==> targets_wf(#[trigger] v.outputs[o], v.boxes.len())
    &&& forall|b: int| 0 <= b < v.boxes.len() ==> box_wf(#[trigger] v.boxes[b], v.next_seq)
}

/// A message is appended to each of the mailboxes `ts`.
pub open spec fn deliver<T>(boxes: Seq<Seq<Message<T>>>, ts: Seq<usize>, m: Message<T>) -> Seq<Seq<Message<T>>> {
    Seq::new(boxes.len(), |b: int| if ts.contains(b as usize) { boxes[b].push(m) } else { boxes[b] })
}

/// Sends `payload` from output `o`: the message goes to every connected
/// mailbox, or, if one of them is closed or full, to none.
pub open spec fn send_model<T>(v: NetworkView<T>, o: int, payload: T) -> (NetworkView<T>, Result<(), SendError>) {
    let ts = v.outputs[o];
    if exists|i: int| 0 <= i < ts.len() && v.closed[#[trigger] ts[i] as int] {
        (v, Err(SendError::Closed))
    } else if exists|i: int| 0 <= i < ts.len() && v.boxes[#[trigger] ts[i] as int].len() >= v.caps[ts[i] as int] {
        (v, Err(SendError::Full))
    } else {
        let m = Message { seq: v.next_seq as u64, payload };
        (NetworkView { boxes: deliver(v.boxes, ts, m), next_seq: v.next_seq + 1, ..v }, Ok(()))
    }
}

/// Model `b` takes the oldest message of its mailbox.
pub open spec fn recv_model<T>(v: NetworkView<T>, b: int) -> (NetworkView<T>, Option<Message<T>>) {
    if v.boxes[b].len() == 0 {
        (v, None)
    } else {
        (NetworkView { boxes: v.boxes.update(b, v.boxes[b].drop_first()), ..v }, Some(v.boxes[b][0]))
    }
}

impl<T: Copy> Network<T> {
    /// Well-formedness of the graph.
    pub open spec fn wf(&self) -> bool {
        network_wf(self@)
    }

    /// A graph with no model and no port.
    pub fn new() -> (r: Network<T>)
        ensures
            r.wf(),
            r@.boxes.len() == 0,
            r@.outputs.len() == 0,
            r@.next_seq == 0,
    {
        let r = Network { mailboxes: Vec::new(), outputs: Vec::new(), next_seq: 0 };
        proof {
            assert(r@.boxes =~= Seq::<Seq<Message<T>>>::empty());
        }
        r
    }

    /// Adds a model whose mailbox holds up to `capacity` messages, and
    /// returns its index.
    pub fn add_model(&mut self, capacity: usize) -> (r: usize)
        requires
            old(self).wf(),
            old(self).mailboxes.len() < usize::MAX,
        ensures
            final(self).wf(),
            r == old(self)@.boxes.len(),
            final(self)@ == (NetworkView {
                boxes: old(self)@.boxes.push(Seq::empty()),
                caps: old(self)@.caps.push(capacity),
                closed: old(self)@.closed.push(false),
                ..old(self)@
            }),
    {
        let r = self.mailboxes.len();
        let mb = Mailbox::with_capacity(capacity);
        proof {
            assert(mb@ =~= Seq::<Message<T>>::empty());
        }
        self.mailboxes.push(mb);
        proof {
            let v = self@;
            let w = old(self)@;
            assert(v.boxes =~= w.boxes.push(Seq::empty()));
            assert(v.caps =~= w.caps.push(capacity));
            assert(v.closed =~= w.closed.push(false));
            assert(v.outputs =~= w.outputs);
            assert forall|o: int| 0 <= o < v.outputs.len() implies targets_wf(#[trigger] v.outputs[o], v.boxes.len()) by {
                assert(targets_wf(w.outputs[o], w.boxes.len()));
            }
            assert forall|b: int| 0 <= b < v.boxes.len() implies box_wf(#[trigger] v.boxes[b], v.next_seq) by {
                if b < w.boxes.len() {
                    assert(box_wf(w.boxes[b], w.next_seq));
                }
            }
        }
        r
    }

    /// Adds an output port with no connection, and returns its index.
    pub fn add_output(&mut self) -> (r: usize)
        requires
            old(self).wf(),
            old(self).outputs.len() < usize::MAX,
        ensures
            final(self).wf(),
            r == old(self)@.outputs.len(),
            final(self)@ == (NetworkView { outputs: old(self)@.outputs.push(Seq::empty()), ..old(self)@ }),
    {
        let r = self.outputs.len();
        self.outputs.push(Vec::new());
        proof {
            let v = self@;
            let w = old(self)@;
            assert(v.outputs =~= w.outputs.push(Seq::empty()));
            assert(v.boxes =~= w.boxes);
            assert(v.caps =~= w.caps);
            assert(v.closed =~= w.closed);
            assert forall|o: int| 0 <= o < v.outputs.len() implies targets_wf(#[trigger] v.outputs[o], v.boxes.len()) by {
                if o < w.outputs.len() {
                    assert(targets_wf(w.outputs[o], w.boxes.len()));
                }
            }
        }
        r
    }

    /// Whether output `o` is connected to model `b`.
    fn is_connected(&self, o: usize, b: usize) -> (r: bool)
        requires
            o < self.outputs.len(),
        ensures
            r == self@.outputs[o as int].contains(b),
    {
        let ts = &self.outputs[o];
        let mut i: usize = 0;
        while i < ts.len()
            invariant
                i <= ts.len(),
                ts@ == self@.outputs[o as int],
                forall|j: int| 0 <= j < i ==> ts@[j] != b,
            decreases ts.len() - i,
        {
            if ts[i] == b {
                return true;
            }
            i = i + 1;
        }
        false
    }

    /// Connects output `o` to model `b`; a connection that exists already is
    /// kept as it is.
    pub fn connect(&mut self, o: usize, b: usize)
        requires
            old(self).wf(),
            o < old(self)@.outputs.len(),
            b < old(self)@.boxes.len(),
        ensures
            final(self).wf(),
            old(self)@.outputs[o as int].contains(b) ==> final(self)@ == old(self)@,
            !old(self)@.outputs[o as int].contains(b) ==> final(self)@ == (NetworkView {
                outputs: old(self)@.outputs.update(o as int, old(self)@.outputs[o as int].push(b)),
                ..old(self)@
            }),
    {
        if self.is_connected(o, b) {
            return;
        }
        self.outputs[o].push(b);
        proof {
            let v = self@;
            let w = old(self)@;
            assert(v.outputs =~= w.outputs.update(o as int, w.outputs[o as int].push(b)));
            assert(v.boxes =~= w.boxes);
            assert(v.caps =~= w.caps);
            assert(v.closed =~= w.closed);
            assert forall|p: int| 0 <= p < v.outputs.len() implies targets_wf(#[trigger] v.outputs[p], v.boxes.len()) by {
                assert(targets_wf(w.outputs[p], w.boxes.len()));
                if p == o {
                    let ts = v.outputs[p];
                    assert forall|i: int, j: int| 0 <= i < j < ts.len() implies ts[i] != ts[j] by {
                        if j == ts.len() - 1 {
                            assert(w.outputs[p][i] == ts[i]);
                        }
                    }
                }
            }
        }
    }

    /// Sends `payload` from output `o` to every connected mailbox, stamped
    /// with the next sequence number; if one of them is closed, or else full,
    /// nothing is sent and the error says which.
    pub fn send(&mut self, o: usize, payload: T) -> (r: Result<(), SendError>)
        requires
            old(self).wf(),
            o < old(self)@.outputs.len(),
            old(self).next_seq < u64::MAX,
        ensures
            final(self).wf(),
            (final(self)@, r) == send_model(old(self)@, o as int, payload),
    {
        let ghost v0 = self@;
        let n = self.outputs[o].len();
        let mut i: usize = 0;
        let mut closed = false;
        let mut full = false;
        while i < n
            invariant
                self@ == v0,
                self.wf(),
                o < self.outputs.len(),
                n == self@.outputs[o as int].len(),
                i <= n,
                targets_wf(self@.outputs[o as int], self@.boxes.len()),
                closed <==> exists|j: int| 0 <= j < i && self@.closed[#[trigger] self@.outputs[o as int][j] as int],
                full <==> exists|j: int|
                    0 <= j < i && self@.boxes[#[trigger] self@.outputs[o as int][j] as int].len()
                        >= self@.caps[self@.outputs[o as int][j] as int],
            decreases n - i,
        {
            let t = self.outputs[o][i];
            proof {
                assert(self@.outputs[o as int][i as int] == t);
                assert(self@.boxes[t as int] == self.mailboxes@[t as int]@);
            }
            if self.mailboxes[t].closed {
                closed = true;
            }
            if self.mailboxes[t].is_full() {
                full = true;
            }
            i = i + 1;
        }
        if closed {
            return Err(SendError::Closed);
        }
        if full {
            return Err(SendError::Full);
        }
        let m = Message { seq: self.next_seq, payload };
        let ghost ts = v0.outputs[o as int];
        let mut k: usize = 0;
        while k < n
            invariant
                o < self.outputs.len(),
                self.outputs@ == old(self).outputs@,
                self.next_seq == old(self).next_seq,
                ts == self@.outputs[o as int],
                n == ts.len(),
                k <= n,
                targets_wf(ts, v0.boxes.len()),
                self.mailboxes.len() == v0.boxes.len(),
                forall|j: int| 0 <= j < ts.len() ==> !v0.closed[#[trigger] ts[j] as int],
                forall|j: int| 0 <= j < ts.len() ==> v0.boxes[#[trigger] ts[j] as int].len() < v0.caps[ts[j] as int],
                self@.caps == v0.caps,
                self@.closed == v0.closed,
                forall|b: int| 0 <= b < v0.boxes.len() ==> #[trigger] self@.boxes[b] == if ts.subrange(0, k as int).contains(b as usize) {
                    v0.boxes[b].push(m)
                } else {
                    v0.boxes[b]
                },
            decreases n - k,
        {
            let t = self.outputs[o][k];
            proof {
                assert(ts[k as int] == t);
                assert(!ts.subrange(0, k as int).contains(t)) by {
                    if ts.subrange(0, k as int).contains(t) {
                        let j = choose|j: int| 0 <= j < k && ts.subrange(0, k as int)[j] == t;
                        assert(ts[j] == t);
                    }
                }
                assert(self@.boxes[t as int] == v0.boxes[t as int]);
                assert(!v0.closed[ts[k as int] as int]);
                assert(v0.boxes[ts[k as int] as int].len() < v0.caps[ts[k as int] as int]);
            }
            let ghost before = self@;
            let ghost mbs = self.mailboxes@;
            let sent = self.mailboxes[t].try_send(m);
            proof {
                let after = self@;
                assert(after.caps =~= before.caps);
                assert(after.closed =~= before.closed);
                assert forall|b: int| 0 <= b < v0.boxes.len() implies #[trigger] self@.boxes[b] == if ts.subrange(
                    0,
                    k + 1,
                ).contains(b as usize) {
                    v0.boxes[b].push(m)
                } else {
                    v0.boxes[b]
                } by {
                    assert(ts.subrange(0, k + 1) =~= ts.subrange(0, k as int).push(t));
                    let pre = ts.subrange(0, k as int);
                    let post = ts.subrange(0, k + 1);
                    if post.contains(b as usize) {
                        let j = choose|j: int| 0 <= j < post.len() && post[j] == b as usize;
                        if j < k {
                            assert(pre[j] == b as usize);
                        }
                    }
                    if pre.contains(b as usize) {
                        let j = choose|j: int| 0 <= j < pre.len() && pre[j] == b as usize;
                        assert(post[j] == b as usize);
                    }
                    if b as usize == t {
                        assert(post[k as int] == t);
                    }
                    assert(self@.boxes[b] == self.mailboxes@[b]@);
                    assert(before.boxes[b] == mbs[b]@);
                    if b != t as int {
                        assert(self.mailboxes@[b] == mbs[b]);
                    } else {
                        assert(self.mailboxes@[b]@ == mbs[b]@.push(m));
                    }
                }
            }
            k = k + 1;
        }
        proof {
            assert(ts.subrange(0, n as int) =~= ts);
            assert(self@.boxes =~= deliver(v0.boxes, ts, m));
        }
        self.next_seq = self.next_seq + 1;
        proof {
            let v = self@;
            assert(v.boxes =~= deliver(v0.boxes, ts, m));
            assert(v.caps =~= v0.caps);
            assert(v.closed =~= v0.closed);
            assert(v.outputs =~= v0.outputs);
            assert forall|b: int| 0 <= b < v.boxes.len() implies box_wf(#[trigger] v.boxes[b], v.next_seq) by {
                assert(box_wf(v0.boxes[b], v0.next_seq));
            }
        }
        Ok(())
    }

    /// Model `b` takes the oldest message of its mailbox.
    pub fn recv(&mut self, b: usize) -> (r: Option<Message<T>>)
        requires
            old(self).wf(),
            b < old(self)@.boxes.len(),
        ensures
            final(self).wf(),
            (final(self)@, r) == recv_model(old(self)@, b as int),
    {
        let ghost mbs = self.mailboxes@;
        let r = self.mailboxes[b].recv();
        proof {
            let v = self@;
            let w = old(self)@;
            assert forall|i: int| 0 <= i < v.boxes.len() && i != b implies v.boxes[i] == w.boxes[i] by {
                assert(self.mailboxes@[i] == mbs[i]);
            }
            assert(v.caps =~= w.caps);
            assert(v.closed =~= w.closed);
            assert(v.outputs =~= w.outputs);
            if w.boxes[b as int].len() == 0 {
                assert(v.boxes =~= w.boxes);
            } else {
                assert(v.boxes =~= w.boxes.update(b as int, w.boxes[b as int].drop_first()));
            }
            assert forall|i: int| 0 <= i < v.boxes.len() implies box_wf(#[trigger] v.boxes[i], v.next_seq) by {
                assert(box_wf(w.boxes[i], w.next_seq));
                if i == b && w.boxes[i].len() > 0 {
                    let q = w.boxes[i];
                    assert forall|x: int, y: int| 0 <= x < y < q.len() - 1 implies q.drop_first()[x].seq < q.drop_first()[y].seq by {
                        assert(q.drop_first()[x] == q[x + 1]);
                        assert(q.drop_first()[y] == q[y + 1]);
                    }
                }
            }
        }
        r
    }
}

/// Sending from an output connected to model `b` alone appends the message
/// to the mailbox of `b` and leaves the other mailboxes as they are.
pub proof fn lemma_send_single<T>(v: NetworkView<T>, o: int, b: int, payload: T)
    requires
        network_wf(v),
        0 <= o < v.outputs.len(),
        v.outputs[o] == seq![b as usize],
        0 <= b < v.boxes.len(),
    ensures
        ({
            let (w, r) = send_model(v, o, payload);
            let m = Message { seq: v.next_seq as u64, payload };
            &&& r is Ok <==> !v.closed[b] && v.boxes[b].len() < v.caps[b]
            &&& r is Ok ==> w.boxes == v.boxes.update(b, v.boxes[b].push(m)) && w.next_seq == v.next_seq + 1
                && w.outputs == v.outputs && w.caps == v.caps && w.closed == v.closed
            &&& r is Err ==> w == v
        }),
{
    let ts = v.outputs[o];
    let m = Message { seq: v.next_seq as u64, payload };
    assert(ts[0] == b as usize);
    if !v.closed[b] && v.boxes[b].len() < v.caps[b] {
        assert forall|i: int| 0 <= i < ts.len() implies !v.closed[#[trigger] ts[i] as int] by {
            assert(i == 0);
        }
        assert forall|i: int| 0 <= i < ts.len() implies !(v.boxes[#[trigger] ts[i] as int].len() >= v.caps[ts[i] as int]) by {
            assert(i == 0);
        }
        let d = deliver(v.boxes, ts, m);
        assert forall|x: int| 0 <= x < v.boxes.len() implies d[x] == v.boxes.update(b, v.boxes[b].push(m))[x] by {
            if ts.contains(x as usize) {
                let j = choose|j: int| 0 <= j < ts.len() && ts[j] == x as usize;
                assert(j == 0);
            }
            if x == b {
                assert(ts[0] == x as usize);
            }
        }
        assert(d =~= v.boxes.update(b, v.boxes[b].push(m)));
    }
}

/// Round trip: a payload sent from an output connected to model `b` alone is
/// what `b` takes from its mailbox; when `b` forwards it unchanged on an
/// output connected to the sink `s` alone, the sink takes that same payload.
pub proof fn lemma_round_trip<T>(v0: NetworkView<T>, a_out: int, b: int, b_out: int, s: int, p: T)
    requires
        network_wf(v0),
        0 <= a_out < v0.outputs.len(),
        0 <= b_out < v0.outputs.len(),
        0 <= b < v0.boxes.len(),
        0 <= s < v0.boxes.len(),
        v0.outputs[a_out] == seq![b as usize],
        v0.outputs[b_out] == seq![s as usize],
        v0.boxes[b].len() == 0,
        v0.boxes[s].len() == 0,
        v0.next_seq + 1 < u64::MAX,
    ensures
        ({
            let (v1, r1) = send_model(v0, a_out, p);
            let (v2, got) = recv_model(v1, b);
            r1 is Ok ==> (got matches Some(m) && m.payload == p && ({
                let (v3, r3) = send_model(v2, b_out, m.payload);
                r3 is Ok ==> (recv_model(v3, s).1 matches Some(m2) && m2.payload == p)
            }))
        }),
{
    lemma_send_single(v0, a_out, b, p);
    let (v1, r1) = send_model(v0, a_out, p);
    if r1 is Ok {
        let (v2, got) = recv_model(v1, b);
        let m = got->Some_0;
        assert(network_wf(v2)) by {
            assert forall|i: int| 0 <= i < v2.boxes.len() implies box_wf(#[trigger] v2.boxes[i], v2.next_seq) by {
                if i != b {
                    assert(v2.boxes[i] == v1.boxes[i]);
                    assert(v1.boxes[i] == v0.boxes[i]);
                    assert(box_wf(v0.boxes[i], v0.next_seq));
                } else {
                    assert(v2.boxes[i].len() == 0);
                }
            }
        }
        lemma_send_single(v2, b_out, s, m.payload);
    }
}

/// Causal order: when `a` sends `m1` to `b` and then `m2` to `c`, and `c`,
/// on taking `m2`, forwards it to `b`, then `b` finds `m1` ahead of the
/// forwarded message in its mailbox, with a smaller stamp.
pub proof fn lemma_causal_order<T>(
    v0: NetworkView<T>,
    ab: int,
    ac: int,
    cb: int,
    b: int,
    c: int,
    m1: T,
    m2: T,
)
    requires
        network_wf(v0),
        0 <= ab < v0.outputs.len(),
        0 <= ac < v0.outputs.len(),
        0 <= cb < v0.outputs.len(),
        0 <= b < v0.boxes.len(),
        0 <= c < v0.boxes.len(),
        b != c,
        v0.outputs[ab] == seq![b as usize],
        v0.outputs[ac] == seq![c as usize],
        v0.outputs[cb] == seq![b as usize],
        v0.boxes[c].len() == 0,
        v0.next_seq + 2 < u64::MAX,
    ensures
        ({
            let (v1, r1) = send_model(v0, ab, m1);
            let (v2, r2) = send_model(v1, ac, m2);
            let (v3, got) = recv_model(v2, c);
            r1 is Ok && r2 is Ok ==> (got matches Some(x) && x.payload == m2 && ({
                let (v4, r4) = send_model(v3, cb, x.payload);
                r4 is Ok ==> v4.boxes[b] == v0.boxes[b] + seq![
                    Message { seq: v0.next_seq as u64, payload: m1 },
                    Message { seq: (v0.next_seq + 2) as u64, payload: m2 },
                ] && v0.next_seq < v0.next_seq + 2
            }))
        }),
{
    lemma_send_single(v0, ab, b, m1);
    let (v1, r1) = send_model(v0, ab, m1);
    if r1 is Ok {
        assert(network_wf(v1)) by {
            assert forall|i: int| 0 <= i < v1.boxes.len() implies box_wf(#[trigger] v1.boxes[i], v1.next_seq) by {
                assert(box_wf(v0.boxes[i], v0.next_seq));
            }
        }
        lemma_send_single(v1, ac, c, m2);
        let (v2, r2) = send_model(v1, ac, m2);
        if r2 is Ok {
            assert(network_wf(v2)) by {
                assert forall|i: int| 0 <= i < v2.boxes.len() implies box_wf(#[trigger] v2.boxes[i], v2.next_seq) by {
                    assert(box_wf(v1.boxes[i], v1.next_seq));
                }
            }
            let (v3, got) = recv_model(v2, c);
            let x = got->Some_0;
            assert(v2.boxes[c] == seq![Message { seq: (v0.next_seq + 1) as u64, payload: m2 }]);
            assert(network_wf(v3)) by {
                assert forall|i: int| 0 <= i < v3.boxes.len() implies box_wf(#[trigger] v3.boxes[i], v3.next_seq) by {
                    assert(box_wf(v2.boxes[i], v2.next_seq));
                    if i == c {
                        assert(v3.boxes[i].len() == 0);
                    }
                }
            }
            lemma_send_single(v3, cb, b, x.payload);
            let (v4, r4) = send_model(v3, cb, x.payload);
            if r4 is Ok {
                assert(v4.boxes[b] =~= v0.boxes[b] + seq![
                    Message { seq: v0.next_seq as u64, payload: m1 },
                    Message { seq: (v0.next_seq + 2) as u64, payload: m2 },
                ]);
            }
        }
    }
}

} // verus!
