//! The advertisement bus: one producer broadcasting to any number of
//! subscribers, each with its own cursor.
//!
//! The bus retains at most `capacity` messages; publishing onto a full
//! bus drops the oldest retained message.  A subscriber whose cursor
//! fell behind the retained window is lagged: its next read reports
//! exactly how many messages it missed and resumes at the oldest
//! retained message.  When the producer closes the bus, subscribers
//! that have drained it see `Closed` and end their sessions.

use vstd::prelude::*;

verus! {

use crate::adv::{Advertisement, AdvModel};

/// The mathematical shape of the bus: how many messages the window has
/// already dropped, the retained window itself, the capacity, and
/// whether the producer closed the broadcast.
pub struct BusView {
    pub dropped: nat,
    pub window: Seq<AdvModel>,
    pub capacity: nat,
    pub closed: bool,
}

impl BusView {
    /// How many messages were ever published.
    pub open spec fn total(self) -> nat {
        self.dropped + self.window.len()
    }

    /// The window never outgrows the capacity.
    pub open spec fn wf(self) -> bool {
        1 <= self.capacity && self.window.len() <= self.capacity
    }
}

/// What publishing one message does: append it, dropping the oldest
/// retained message if the window is full.
pub open spec fn bus_after_publish(b: BusView, m: AdvModel) -> BusView {
    if b.window.len() < b.capacity {
        BusView { dropped: b.dropped, window: b.window + seq![m], capacity: b.capacity, closed: b.closed }
    } else {
        BusView {
            dropped: b.dropped + 1,
            window: b.window.skip(1) + seq![m],
            capacity: b.capacity,
            closed: b.closed,
        }
    }
}

/// Publishing a whole sequence, in order.
pub open spec fn bus_after_publish_all(b: BusView, ms: Seq<AdvModel>) -> BusView
    decreases ms.len(),
{
    if ms.len() == 0 {
        b
    } else {
        bus_after_publish_all(bus_after_publish(b, ms[0]), ms.skip(1))
    }
}

/// The broadcast state.  At most `capacity` advertisements are held at
/// any time.
pub struct Bus {
    window: Vec<Advertisement>,
    dropped: usize,
    capacity: usize,
    closed: bool,
}

impl View for Bus {
    type V = BusView;

    closed spec fn view(&self) -> BusView {
        BusView {
            dropped: self.dropped as nat,
            window: self.window.deep_view(),
            capacity: self.capacity as nat,
            closed: self.closed,
        }
    }
}

/// One subscriber's cursor into the stream of published messages.
pub struct BusReceiver {
    next: usize,
}

impl View for BusReceiver {
    type V = nat;

    closed spec fn view(&self) -> nat {
        self.next as nat
    }
}

/// What one read yields: the next message, a lag report carrying the
/// number of messages skipped, nothing yet, or a closed bus.
pub enum RecvOutcome {
    Message(Advertisement),
    Lagged(u64),
    Empty,
    Closed,
}

impl Bus {
    /// An open, empty bus.
    pub fn new(capacity: usize) -> (b: Bus)
        requires
            capacity >= 1,
        ensures
            b@.dropped == 0,
            b@.window =~= Seq::<AdvModel>::empty(),
            b@.capacity == capacity,
            !b@.closed,
            b@.wf(),
    {
        Bus { window: Vec::new(), dropped: 0, capacity, closed: false }
    }

    /// Publishes one advertisement to every subscriber, dropping the
    /// oldest retained message on overflow.  Publishing on a closed or
    /// counter-saturated bus does nothing.
    pub fn publish(&mut self, adv: Advertisement)
        requires
            old(self)@.wf(),
            old(self)@.total() <= usize::MAX,
        ensures
            final(self)@.wf(),
            final(self)@.total() <= usize::MAX,
            final(self)@ == if old(self)@.closed || old(self)@.total() >= usize::MAX {
                old(self)@
            } else {
                bus_after_publish(old(self)@, adv@)
            },
    {
        if self.closed {
            return ;
        }
        if self.dropped >= usize::MAX - self.window.len() {
            return ;
        }
        let ghost pre = self.window.deep_view();
        let ghost m = adv@;
        if self.window.len() >= self.capacity {
            self.window.remove(0);
            self.dropped = self.dropped + 1;
            proof {
                assert forall|j: int| 0 <= j < self.window.deep_view().len() implies
                    self.window.deep_view()[j] == pre.skip(1)[j] by {
                    assert(self.window@[j] == old(self).window@[j + 1]);
                }
                assert(self.window.deep_view() =~= pre.skip(1));
            }
        }
        let ghost mid = self.window.deep_view();
        self.window.push(adv);
        proof {
            assert forall|j: int| 0 <= j < mid.len() + 1 implies self.window.deep_view()[j] == (mid
                + seq![m])[j] by {
            }
            assert(self.window.deep_view() =~= mid + seq![m]);
        }
    }

    /// Ends the broadcast; subscribers that drain the rest see
    /// `Closed`.
    pub fn close(&mut self)
        ensures
            final(self)@.dropped == old(self)@.dropped,
            final(self)@.window == old(self)@.window,
            final(self)@.capacity == old(self)@.capacity,
            final(self)@.closed,
    {
        self.closed = true;
    }

    /// Whether the producer has closed the bus.
    pub fn is_closed(&self) -> (r: bool)
        ensures
            r == self@.closed,
    {
        self.closed
    }

    /// A fresh, independent cursor starting at the current head, as
    /// each newly accepted connection gets.
    pub fn subscribe(&self) -> (rx: BusReceiver)
        requires
            self@.total() <= usize::MAX,
        ensures
            rx@ == self@.total(),
    {
        BusReceiver { next: self.dropped + self.window.len() }
    }

    /// One non-blocking read for `rx`: the lag report if the cursor
    /// fell behind the retained window, otherwise the next retained
    /// message, otherwise whether the bus is still open.  A cursor
    /// past the head (possible only for a receiver of another bus) is
    /// pulled back to the head first.
    pub fn try_recv(&self, rx: &mut BusReceiver) -> (r: RecvOutcome)
        requires
            self@.total() <= usize::MAX,
        ensures
            ({
                let n = if old(rx)@ <= self@.total() {
                    old(rx)@
                } else {
                    self@.total()
                };
                if n < self@.dropped {
                    &&& r matches RecvOutcome::Lagged(lost) && lost == self@.dropped - n
                    &&& final(rx)@ == self@.dropped
                } else if n < self@.total() {
                    &&& r matches RecvOutcome::Message(a) && a@ == self@.window[n - self@.dropped]
                    &&& final(rx)@ == n + 1
                } else {
                    &&& final(rx)@ == n
                    &&& if self@.closed {
                        r is Closed
                    } else {
                        r is Empty
                    }
                }
            }),
    {
        let total = self.dropped + self.window.len();
        if rx.next > total {
            rx.next = total;
        }
        if rx.next < self.dropped {
            let lost = (self.dropped - rx.next) as u64;
            rx.next = self.dropped;
            RecvOutcome::Lagged(lost)
        } else if rx.next < total {
            let idx = rx.next - self.dropped;
            let a = (&self.window[idx]).clone();
            proof {
                assert(self.window.deep_view()[idx as int] == self.window@[idx as int]@);
            }
            rx.next = rx.next + 1;
            RecvOutcome::Message(a)
        } else if self.closed {
            RecvOutcome::Closed
        } else {
            RecvOutcome::Empty
        }
    }
}

/// What a subscriber at cursor `n` will still observe, oldest first.
pub open spec fn pending(b: BusView, n: nat) -> Seq<AdvModel> {
    if n >= b.dropped {
        b.window.skip(n - b.dropped)
    } else {
        b.window
    }
}

/// After any run of publishes, the window holds exactly the newest
/// `capacity` of the old window followed by the published messages,
/// and the counts add up.
proof fn lemma_publish_all_shape(b: BusView, ms: Seq<AdvModel>)
    requires
        b.wf(),
    ensures
        ({
            let b2 = bus_after_publish_all(b, ms);
            let all = b.window + ms;
            &&& b2.wf()
            &&& b2.capacity == b.capacity
            &&& b2.closed == b.closed
            &&& b2.total() == b.total() + ms.len()
            &&& b2.window.len() == if all.len() <= b.capacity {
                all.len()
            } else {
                b.capacity
            }
            &&& b2.window =~= all.skip(all.len() - b2.window.len())
        }),
    decreases ms.len(),
{
    let b2 = bus_after_publish_all(b, ms);
    let all = b.window + ms;
    if ms.len() == 0 {
        assert(all =~= b.window);
        assert(b2.window =~= all.skip(0));
    } else {
        let b1 = bus_after_publish(b, ms[0]);
        lemma_publish_all_shape(b1, ms.skip(1));
        let all1 = b1.window + ms.skip(1);
        if b.window.len() < b.capacity {
            assert(b1.window =~= b.window + seq![ms[0]]);
            assert(all1 =~= all);
        } else {
            assert(b1.window =~= b.window.skip(1) + seq![ms[0]]);
            assert(all1 =~= all.skip(1));
        }
        assert(b2 == bus_after_publish_all(b1, ms.skip(1)));
        assert(b2.window =~= all.skip(all.len() - b2.window.len()));
    }
}

/// Fan-out without loss: a subscriber standing at the head when a run
/// of at most `capacity` messages is published still has every one of
/// them pending, in publish order — so each subscriber observes all of
/// them.
pub proof fn lemma_bus_fanout(b: BusView, n: nat, ms: Seq<AdvModel>)
    requires
        b.wf(),
        n == b.total(),
        ms.len() <= b.capacity,
    ensures
        pending(bus_after_publish_all(b, ms), n) =~= ms,
        bus_after_publish_all(b, ms).dropped <= n,
{
    lemma_publish_all_shape(b, ms);
    let b2 = bus_after_publish_all(b, ms);
    let all = b.window + ms;
    assert(pending(b2, n) =~= b2.window.skip(n - b2.dropped));
    assert(b2.window.skip(n - b2.dropped) =~= all.skip(b.window.len() as int));
    assert(all.skip(b.window.len() as int) =~= ms);
}

/// Overflow with notice: a subscriber that stalled at the head while
/// more than `capacity` messages were published is behind the window
/// by exactly the number of messages it lost, and what remains pending
/// is the newest `capacity` of them — it resumes at the oldest
/// retained message.
pub proof fn lemma_bus_overflow(b: BusView, n: nat, ms: Seq<AdvModel>)
    requires
        b.wf(),
        n == b.total(),
        ms.len() > b.capacity,
    ensures
        bus_after_publish_all(b, ms).dropped - n == ms.len() - b.capacity,
        pending(bus_after_publish_all(b, ms), n) =~= ms.skip(ms.len() - b.capacity),
{
    lemma_publish_all_shape(b, ms);
    let b2 = bus_after_publish_all(b, ms);
    let all = b.window + ms;
    assert(b2.window.len() == b.capacity);
    assert(b2.dropped == b.total() + ms.len() - b.capacity);
    assert(pending(b2, n) =~= b2.window);
    assert(b2.window =~= all.skip(all.len() - b.capacity));
    assert(all.skip(all.len() - b.capacity) =~= ms.skip(ms.len() - b.capacity));
}

} // verus!
