//! The broadcast bus: one bounded, lossy, multi-consumer channel of lines.
//!
//! The bus keeps the last `capacity` published lines in a ring. Each
//! subscription is a cursor, a sequence number into the stream of every line
//! ever published; a cursor that falls out of the retained window is moved to
//! its oldest line and told how many it skipped.
use vstd::prelude::*;

verus! {

/// The abstract state of a bus: every line ever published, in order, the
/// number of lines it retains, and whether it has been closed.
pub struct BusView {
    pub history: Seq<Seq<char>>,
    pub capacity: nat,
    pub closed: bool,
}

/// What one receive hands out, abstractly.
pub enum Delivery {
    Message(Seq<char>),
    Lagged(nat),
    Empty,
    Closed,
}

/// What one receive hands out.
#[derive(Debug, PartialEq, Eq)]
pub enum Received {
    /// The next line; the cursor moved past it.
    Message(String),
    /// The cursor had fallen behind the retained window: this many lines were
    /// skipped and the cursor now stands at the oldest retained line.
    Lagged(u64),
    /// Nothing published since the last line received; try again later.
    Empty,
    /// The bus is closed and everything it retained for this cursor was received.
    Closed,
}

impl View for Received {
    type V = Delivery;

    open spec fn view(&self) -> Delivery {
        match self {
            Received::Message(s) => Delivery::Message(s@),
            Received::Lagged(n) => Delivery::Lagged(*n as nat),
            Received::Empty => Delivery::Empty,
            Received::Closed => Delivery::Closed,
        }
    }
}

/// The sequence number of the oldest line that the bus still retains.
pub open spec fn oldest(v: BusView) -> nat {
    if v.history.len() > v.capacity {
        (v.history.len() - v.capacity) as nat
    } else {
        0
    }
}

/// The bus after `msg` is published: appended, unless the bus is closed.
pub open spec fn published(v: BusView, msg: Seq<char>) -> BusView {
    if v.closed {
        v
    } else {
        BusView { history: v.history.push(msg), ..v }
    }
}

/// One receive on a cursor: what it hands out and where the cursor goes.
pub open spec fn receive_step(v: BusView, cursor: nat) -> (Delivery, nat) {
    if cursor < oldest(v) {
        (Delivery::Lagged((oldest(v) - cursor) as nat), oldest(v))
    } else if cursor < v.history.len() {
        (Delivery::Message(v.history[cursor as int]), cursor + 1)
    } else if v.closed {
        (Delivery::Closed, cursor)
    } else {
        (Delivery::Empty, cursor)
    }
}

/// A subscription: the sequence number of the next line it will receive.
#[derive(Debug)]
pub struct Subscription {
    next: u64,
}

impl View for Subscription {
    type V = nat;

    closed spec fn view(&self) -> nat {
        self.next as nat
    }
}

/// The bus. Lines are stored in a ring of `capacity` slots; `head` is the slot
/// of the oldest retained line once the ring is full.
pub struct Bus {
    capacity: usize,
    sent: u64,
    head: usize,
    ring: Vec<String>,
    closed: bool,
    history: Ghost<Seq<Seq<char>>>,
}

impl View for Bus {
    type V = BusView;

    closed spec fn view(&self) -> BusView {
        BusView { history: self.history@, capacity: self.capacity as nat, closed: self.closed }
    }
}

impl Bus {
    /// The ring slot of the `j`-th oldest retained line.
    closed spec fn slot(&self, j: int) -> int {
        if self.head + j < self.capacity {
            self.head + j
        } else {
            self.head + j - self.capacity
        }
    }

    /// The ring holds exactly the retained suffix of the history.
    pub closed spec fn wf(&self) -> bool {
        &&& self.capacity >= 1
        &&& self.sent as nat == self.history@.len()
        &&& self.ring.len() <= self.capacity
        &&& self.ring.len() == self.history@.len() - oldest(self@)
        &&& self.head < self.capacity
        &&& self.ring.len() < self.capacity ==> self.head == 0
        &&& forall|j: int|
            0 <= j < self.ring.len() ==> #[trigger] self.ring[self.slot(j)]@
                == self.history@[self.sent - self.ring.len() + j]
    }

    /// A new, open bus that retains the last `capacity` lines.
    pub fn new(capacity: usize) -> (r: Bus)
        requires
            capacity >= 1,
        ensures
            r.wf(),
            r@ == (BusView { history: Seq::empty(), capacity: capacity as nat, closed: false }),
    {
        Bus {
            capacity,
            sent: 0,
            head: 0,
            ring: Vec::new(),
            closed: false,
            history: Ghost(Seq::empty()),
        }
    }

    /// The number of lines the bus retains.
    pub fn capacity(&self) -> (r: usize)
        ensures
            r as nat == self@.capacity,
    {
        self.capacity
    }

    /// The number of lines published so far, which is also the sequence
    /// number of the next one.
    pub fn published_count(&self) -> (r: u64)
        requires
            self.wf(),
        ensures
            r as nat == self@.history.len(),
    {
        self.sent
    }

    /// Whether the bus has been closed.
    pub fn is_closed(&self) -> (r: bool)
        ensures
            r == self@.closed,
    {
        self.closed
    }

    /// A new cursor that receives only lines published after this call.
    pub fn subscribe(&self) -> (s: Subscription)
        requires
            self.wf(),
        ensures
            s@ == self@.history.len(),
    {
        Subscription { next: self.sent }
    }

    /// Closes the bus for good: no line is published after this, and each
    /// cursor, once it has received what is retained, gets `Closed`.
    pub fn close(&mut self)
        requires
            old(self).wf(),
        ensures
            final(self).wf(),
            final(self)@ == (BusView { closed: true, ..old(self)@ }),
    {
        let ghost before = *self;
        self.closed = true;
        proof {
            assert forall|j: int| 0 <= j < self.ring.len() implies #[trigger] self.ring[self.slot(
                j,
            )]@ == self.history@[self.sent - self.ring.len() + j] by {
                assert(before.slot(j) == self.slot(j));
                assert(before.ring[before.slot(j)]@ == before.history@[before.sent - before.ring.len() + j]);
            }
        }
    }
    /// Publishes a line: it is appended to the stream and the oldest retained
    /// line is dropped once `capacity` are retained. Never waits on any
    /// subscriber. On a closed bus nothing happens.
    pub fn publish(&mut self, msg: String)
        requires
            old(self).wf(),
            old(self)@.history.len() < u64::MAX,
        ensures
            final(self).wf(),
            final(self)@ == published(old(self)@, msg@),
    {
        if self.closed {
            return;
        }
        let ghost before = *self;
        let ghost m = msg@;
        if self.ring.len() < self.capacity {
            self.ring.push(msg);
        } else {
            self.ring.set(self.head, msg);
            if self.head + 1 == self.capacity {
                self.head = 0;
            } else {
                self.head = self.head + 1;
            }
        }
        self.sent = self.sent + 1;
        self.history = Ghost(self.history@.push(m));
        proof {
            let cap = self.capacity as int;
            if before.ring.len() < cap {
                assert(before.history@.len() <= cap);
                assert forall|j: int| 0 <= j < self.ring.len() implies #[trigger] self.ring[self.slot(
                    j,
                )]@ == self.history@[self.sent - self.ring.len() + j] by {
                    assert(self.slot(j) == j);
                    if j < before.ring.len() {
                        assert(before.slot(j) == j);
                        assert(before.ring[before.slot(j)]@ == before.history@[before.sent
                            - before.ring.len() + j]);
                    }
                }
            } else {
                assert forall|j: int| 0 <= j < self.ring.len() implies #[trigger] self.ring[self.slot(
                    j,
                )]@ == self.history@[self.sent - self.ring.len() + j] by {
                    if j + 1 < cap {
                        assert(self.slot(j) == before.slot(j + 1));
                        assert(before.slot(j + 1) != before.head);
                        assert(before.ring[before.slot(j + 1)]@ == before.history@[before.sent
                            - before.ring.len() + j + 1]);
                    } else {
                        assert(self.slot(j) == before.head);
                    }
                }
            }
        }
    }

    /// Receives on `sub`: the next line if the cursor is within the retained
    /// window, a lag notice that moves the cursor to the oldest retained line
    /// if it fell behind, and otherwise `Empty`, or `Closed` once the bus is
    /// closed.
    pub fn receive(&self, sub: &mut Subscription) -> (r: Received)
        requires
            self.wf(),
        ensures
            (r@, final(sub)@) == receive_step(self@, old(sub)@),
    {
        let first = self.sent - self.ring.len() as u64;
        if sub.next < first {
            let skipped = first - sub.next;
            sub.next = first;
            Received::Lagged(skipped)
        } else if sub.next < self.sent {
            let j = (sub.next - first) as usize;
            let slot = if j < self.capacity - self.head {
                self.head + j
            } else {
                j - (self.capacity - self.head)
            };
            proof {
                assert(slot == self.slot(j as int));
            }
            let msg = self.ring[slot].clone();
            sub.next = sub.next + 1;
            Received::Message(msg)
        } else if self.closed {
            Received::Closed
        } else {
            Received::Empty
        }
    }
}

/// One operation of a trace on the bus, seen from one subscription.
pub enum BusStep {
    Publish(Seq<char>),
    Receive,
}

/// Runs a trace from bus `v` with the subscription at `cursor`: the bus after
/// it, where the cursor ends, and what each receive handed out.
pub open spec fn run(v: BusView, cursor: nat, steps: Seq<BusStep>) -> (BusView, nat, Seq<Delivery>)
    decreases steps.len(),
{
    if steps.len() == 0 {
        (v, cursor, Seq::empty())
    } else {
        let (v1, c1, out) = run(v, cursor, steps.drop_last());
        match steps.last() {
            BusStep::Publish(m) => (published(v1, m), c1, out),
            BusStep::Receive => {
                let (d, c2) = receive_step(v1, c1);
                (v1, c2, out.push(d))
            },
        }
    }
}

/// The lines that a trace publishes, in order.
pub open spec fn publishes(steps: Seq<BusStep>) -> Seq<Seq<char>>
    decreases steps.len(),
{
    if steps.len() == 0 {
        Seq::empty()
    } else {
        match steps.last() {
            BusStep::Publish(m) => publishes(steps.drop_last()).push(m),
            BusStep::Receive => publishes(steps.drop_last()),
        }
    }
}

/// The lines among what a subscription received, in order.
pub open spec fn messages(out: Seq<Delivery>) -> Seq<Seq<char>>
    decreases out.len(),
{
    if out.len() == 0 {
        Seq::empty()
    } else {
        match out.last() {
            Delivery::Message(m) => messages(out.drop_last()).push(m),
            _ => messages(out.drop_last()),
        }
    }
}

/// Receiving one more item adds its line, if it is one, to the lines received.
pub proof fn lemma_messages_push(out: Seq<Delivery>, d: Delivery)
    ensures
        messages(out.push(d)) == (match d {
            Delivery::Message(m) => messages(out).push(m),
            _ => messages(out),
        }),
{
    assert(out.push(d).drop_last() =~= out);
}

/// What holds after any trace on an open bus: the history grew by exactly the
/// published lines, and the cursor only moved forward, never past the end.
pub proof fn lemma_run(v: BusView, cursor: nat, steps: Seq<BusStep>)
    requires
        !v.closed,
        cursor <= v.history.len(),
    ensures
        run(v, cursor, steps).0 == (BusView { history: v.history + publishes(steps), ..v }),
        cursor <= run(v, cursor, steps).1 <= run(v, cursor, steps).0.history.len(),
        (forall|i: int| 0 <= i < steps.len() ==> #[trigger] steps[i] is Publish) ==> (
        publishes(steps).len() == steps.len() && run(v, cursor, steps).1 == cursor
            && run(v, cursor, steps).2.len() == 0),
    decreases steps.len(),
{
    if steps.len() > 0 {
        let prefix = steps.drop_last();
        lemma_run(v, cursor, prefix);
        if forall|i: int| 0 <= i < steps.len() ==> #[trigger] steps[i] is Publish {
            assert forall|i: int| 0 <= i < prefix.len() implies #[trigger] prefix[i] is Publish by {
                assert(prefix[i] == steps[i]);
            }
            assert(steps[steps.len() - 1] is Publish);
        }
        let v1 = run(v, cursor, prefix).0;
        match steps.last() {
            BusStep::Publish(m) => {
                assert(v1.history.push(m) =~= v.history + publishes(prefix).push(m));
            },
            BusStep::Receive => {},
        }
    }
}

/// A subscription created before a run of publishes, and never lagging,
/// receives exactly those lines in publication order: what it has received
/// at any point is a prefix of what was published, and its cursor stands
/// right after it.
pub proof fn lemma_delivered_in_order(v: BusView, steps: Seq<BusStep>)
    requires
        !v.closed,
        forall|i: int|
            0 <= i < run(v, v.history.len(), steps).2.len() ==> !(#[trigger] run(
                v,
                v.history.len(),
                steps,
            ).2[i] is Lagged),
    ensures
        ({
            let (v2, c2, out) = run(v, v.history.len(), steps);
            &&& messages(out) == publishes(steps).take(messages(out).len() as int)
            &&& c2 == v.history.len() + messages(out).len()
        }),
    decreases steps.len(),
{
    let c = v.history.len();
    if steps.len() > 0 {
        let prefix = steps.drop_last();
        let (v1, c1, out1) = run(v, c, prefix);
        let (v2, c2, out) = run(v, c, steps);
        assert forall|i: int| 0 <= i < out1.len() implies !(#[trigger] out1[i] is Lagged) by {
            assert(out1[i] == out[i]);
        }
        lemma_delivered_in_order(v, prefix);
        lemma_run(v, c, prefix);
        let k = messages(out1).len();
        match steps.last() {
            BusStep::Publish(m) => {
                assert(publishes(steps).take(k as int) =~= publishes(prefix).take(k as int));
            },
            BusStep::Receive => {
                assert(out[out.len() - 1] == receive_step(v1, c1).0);
                lemma_messages_push(out1, receive_step(v1, c1).0);
                if c1 < v1.history.len() {
                    assert(v1.history[c1 as int] == publishes(prefix)[k as int]);
                    assert(messages(out) =~= messages(out1).push(publishes(prefix)[k as int]));
                    assert(publishes(steps).take((k + 1) as int) =~= publishes(prefix).take(k as int).push(
                        publishes(prefix)[k as int],
                    ));
                } else {
                    assert(messages(out) == messages(out1));
                }
            },
        }
    }
}

/// A subscription never receives a line published before it was created:
/// everything it receives is among the lines published after that.
pub proof fn lemma_no_earlier_lines(v: BusView, steps: Seq<BusStep>)
    requires
        !v.closed,
    ensures
        forall|i: int|
            0 <= i < messages(run(v, v.history.len(), steps).2).len() ==> publishes(steps).contains(
                #[trigger] messages(run(v, v.history.len(), steps).2)[i],
            ),
    decreases steps.len(),
{
    let c = v.history.len();
    if steps.len() > 0 {
        let prefix = steps.drop_last();
        let v1 = run(v, c, prefix).0;
        let c1 = run(v, c, prefix).1;
        let out1 = run(v, c, prefix).2;
        let out = run(v, c, steps).2;
        lemma_no_earlier_lines(v, prefix);
        lemma_run(v, c, prefix);
        let p1 = publishes(prefix);
        let p = publishes(steps);
        assert forall|j: int| 0 <= j < p1.len() implies p1[j] == p[j] && j < p.len() by {
            match steps.last() {
                BusStep::Publish(m) => {},
                BusStep::Receive => {},
            }
        }
        let d = receive_step(v1, c1).0;
        if steps.last() is Receive {
            lemma_messages_push(out1, d);
        }
        assert forall|i: int| 0 <= i < messages(out).len() implies p.contains(
            #[trigger] messages(out)[i],
        ) by {
            if i < messages(out1).len() {
                if steps.last() is Receive && d is Message {
                    assert(messages(out) =~= messages(out1).push(d->Message_0));
                } else {
                    assert(messages(out) == messages(out1));
                }
                assert(messages(out)[i] == messages(out1)[i]);
                assert(p1.contains(messages(out1)[i]));
                let j = choose|j: int| 0 <= j < p1.len() && p1[j] == messages(out1)[i];
                assert(p[j] == p1[j]);
            } else {
                assert(steps.last() is Receive);
                assert(d is Message);
                assert(messages(out) =~= messages(out1).push(d->Message_0));
                assert(v1.history[c1 as int] == p1[c1 - c]);
                assert(messages(out)[i] == p[c1 - c]);
            }
        }
    }
}

/// A subscription that is not drained while more than `capacity` lines are
/// published gets, on its next receive, a lag notice for the lines that are
/// no longer retained (at least one), and its cursor then stands at the
/// oldest retained line, which the following receive hands out: the skipped
/// lines are never delivered.
pub proof fn lemma_lag_skips_ahead(v: BusView, cursor: nat, steps: Seq<BusStep>)
    requires
        !v.closed,
        v.capacity >= 1,
        oldest(v) <= cursor <= v.history.len(),
        forall|i: int| 0 <= i < steps.len() ==> #[trigger] steps[i] is Publish,
        v.history.len() + steps.len() > cursor + v.capacity,
    ensures
        ({
            let (v2, c2, out) = run(v, cursor, steps);
            let (d, c3) = receive_step(v2, c2);
            &&& c2 == cursor
            &&& c3 == oldest(v2)
            &&& c3 == v2.history.len() - v.capacity
            &&& c3 > cursor
            &&& d == Delivery::Lagged((c3 - cursor) as nat)
            &&& receive_step(v2, c3) == (Delivery::Message(v2.history[c3 as int]), c3 + 1)
        }),
{
    lemma_run(v, cursor, steps);
}

} // verus!
