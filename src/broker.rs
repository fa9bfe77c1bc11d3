//! The per-group fan-out of live messages. Every subscription belongs to one
//! group and has an outbox of bounded size; publishing to a group appends
//! the event to the outbox of each of its subscriptions that has room, and
//! drops it for a subscription whose outbox is full.
use vstd::prelude::*;

verus! {

/// A message as it is broadcast to the members of a group.
#[derive(Debug)]
pub struct SentChatMessage {
    pub id: u128,
    pub text: String,
    pub time: i64,
    pub username: String,
}

impl Clone for SentChatMessage {
    fn clone(&self) -> (r: Self)
        ensures
            r == *self,
    {
        SentChatMessage {
            id: self.id,
            text: self.text.clone(), time: self.time, username: self.username.clone() }
    }
}

/// The events of a group's live channel.
#[derive(Debug)]
pub enum ChatChannelMessages {
    NewMessage(SentChatMessage),
}

impl Clone for ChatChannelMessages {
    fn clone(&self) -> (r: Self)
        ensures
            r == *self,
    {
        match self {
            ChatChannelMessages::NewMessage(m) => ChatChannelMessages::NewMessage(m.clone()),
        }
    }
}

/// What a subscription is: its handle, its group and the events waiting in
/// its outbox, oldest first.
pub struct SubscriptionView {
    pub handle: u64,
    pub group_id: u128,
    pub outbox: Seq<ChatChannelMessages>,
}

/// What a broker is: its subscriptions in the order they were made, the next
/// handle it gives out and the size of each outbox.
pub struct BrokerView {
    pub subs: Seq<SubscriptionView>,
    pub next_handle: u64,
    pub capacity: nat,
}

/// The outbox of `s` after `e` is published to group `g`.
pub open spec fn delivered(
    s: SubscriptionView,
    g: u128,
    e: ChatChannelMessages,
    capacity: nat,
) -> Seq<ChatChannelMessages> {
    if s.group_id == g && s.outbox.len() < capacity {
        s.outbox.push(e)
    } else {
        s.outbox
    }
}

impl BrokerView {
    pub open spec fn wf(self) -> bool {
        &&& forall|i: int, j: int|
            0 <= i < j < self.subs.len() ==> self.subs[i].handle != self.subs[j].handle
        &&& forall|i: int| 0 <= i < self.subs.len() ==> self.subs[i].handle < self.next_handle
        &&& forall|i: int|
            0 <= i < self.subs.len() ==> (#[trigger] self.subs[i]).outbox.len() <= self.capacity
    }

    /// Whether `h` is a live subscription.
    pub open spec fn has_handle(self, h: u64) -> bool {
        exists|i: int| 0 <= i < self.subs.len() && #[trigger] self.subs[i].handle == h
    }

    /// Whether group `g` has a channel, that is, at least one subscription.
    pub open spec fn has_channel(self, g: u128) -> bool {
        exists|i: int| 0 <= i < self.subs.len() && #[trigger] self.subs[i].group_id == g
    }

    /// `next` is `self` after `e` was published to group `g`: the same
    /// subscriptions, each outbox of `g` extended by `e` where it had room.
    pub open spec fn published(self, next: BrokerView, g: u128, e: ChatChannelMessages) -> bool {
        &&& next.subs.len() == self.subs.len()
        &&& next.next_handle == self.next_handle
        &&& next.capacity == self.capacity
        &&& forall|i: int|
            0 <= i < self.subs.len() ==> {
                &&& (#[trigger] next.subs[i]).handle == self.subs[i].handle
                &&& next.subs[i].group_id == self.subs[i].group_id
                &&& next.subs[i].outbox == delivered(self.subs[i], g, e, self.capacity)
            }
    }
}

/// `a` consists of some of the items of `b`, in the order they have in `b`.
pub open spec fn is_ordered_subset<T>(a: Seq<T>, b: Seq<T>) -> bool
    decreases b.len(),
{
    if b.len() == 0 {
        a.len() == 0
    } else {
        is_ordered_subset(a, b.drop_last()) || (a.len() > 0 && a.last() == b.last()
            && is_ordered_subset(a.drop_last(), b.drop_last()))
    }
}

/// Publishing `events` to group `g` one after another, through the broker
/// states `states`, keeps every subscription that was live at the start in its
/// place, and leaves it with its earlier outbox followed by some of `events`
/// in the order they were published: no event is reordered, though some may
/// be missed.
pub proof fn lemma_publish_order(
    states: Seq<BrokerView>,
    g: u128,
    events: Seq<ChatChannelMessages>,
    i: int,
)
    requires
        states.len() == events.len() + 1,
        forall|k: int|
            0 <= k < events.len() ==> #[trigger] states[k].published(states[k + 1], g, events[k]),
        0 <= i < states[0].subs.len(),
    ensures
        states.last().subs.len() == states[0].subs.len(),
        states.last().subs[i].handle == states[0].subs[i].handle,
        states.last().subs[i].group_id == states[0].subs[i].group_id,
        exists|s: Seq<ChatChannelMessages>|
            is_ordered_subset(s, events) && states.last().subs[i].outbox
                == states[0].subs[i].outbox + s,
    decreases events.len(),
{
    if events.len() == 0 {
        assert(is_ordered_subset(Seq::<ChatChannelMessages>::empty(), events));
        assert(states.last().subs[i].outbox == states[0].subs[i].outbox + Seq::empty());
    } else {
        let n = events.len() - 1;
        let prev = states.drop_last();
        let evs = events.drop_last();
        assert forall|k: int| 0 <= k < evs.len() implies #[trigger] prev[k].published(
            prev[k + 1],
            g,
            evs[k],
        ) by {
            assert(states[k].published(states[k + 1], g, events[k]));
        }
        lemma_publish_order(prev, g, evs, i);
        let s0 = choose|s: Seq<ChatChannelMessages>|
            is_ordered_subset(s, evs) && prev.last().subs[i].outbox == states[0].subs[i].outbox
                + s;
        assert(prev.last() == states[n]);
        assert(states[n].published(states[n + 1], g, events[n]));
        let last = states[n].subs[i];
        if last.group_id == g && last.outbox.len() < states[n].capacity {
            let s = s0.push(events[n]);
            assert(s.drop_last() =~= s0);
            assert(events.drop_last() =~= evs);
            assert(is_ordered_subset(s, events));
            assert(states.last().subs[i].outbox =~= states[0].subs[i].outbox + s);
        } else {
            assert(events.drop_last() =~= evs);
            assert(is_ordered_subset(s0, events));
        }
    }
}

struct Subscription {
    handle: u64,
    group_id: u128,
    outbox: Vec<ChatChannelMessages>,
}

impl Subscription {
    closed spec fn view(&self) -> SubscriptionView {
        SubscriptionView { handle: self.handle, group_id: self.group_id, outbox: self.outbox@ }
    }
}

/// The registry of live channels, one per group that has subscriptions.
pub struct Broker {
    subs: Vec<Subscription>,
    next_handle: u64,
    capacity: usize,
}

impl View for Broker {
    type V = BrokerView;

    closed spec fn view(&self) -> BrokerView {
        BrokerView {
            subs: self.subs@.map_values(|s: Subscription| s.view()),
            next_handle: self.next_handle,
            capacity: self.capacity as nat,
        }
    }
}

impl Broker {
    /// A broker without subscriptions whose outboxes hold up to `capacity`
    /// events each.
    pub fn new(capacity: usize) -> (r: Broker)
        ensures
            r@.wf(),
            r@.subs.len() == 0,
            r@.next_handle == 0,
            r@.capacity == capacity,
    {
        Broker { subs: Vec::new(), next_handle: 0, capacity }
    }

    /// Registers a new connection to group `group_id` and returns its
    /// handle. No authorization is performed here.
    pub fn subscribe(&mut self, group_id: u128) -> (r: u64)
        requires
            old(self)@.wf(),
            old(self)@.next_handle < u64::MAX,
        ensures
            final(self)@.wf(),
            r == old(self)@.next_handle,
            final(self)@.next_handle == old(self)@.next_handle + 1,
            final(self)@.capacity == old(self)@.capacity,
            final(self)@.subs == old(self)@.subs.push(
                SubscriptionView { handle: r, group_id, outbox: Seq::empty() },
            ),
    {
        let h = self.next_handle;
        self.subs.push(Subscription { handle: h, group_id, outbox: Vec::new() });
        self.next_handle = h + 1;
        proof {
            assert(self@.subs =~= old(self)@.subs.push(
                SubscriptionView { handle: h, group_id, outbox: Seq::empty() },
            ));
        }
        h
    }

    /// The position of subscription `h`, if it is live.
    fn find(&self, h: u64) -> (r: Option<usize>)
        requires
            self@.wf(),
        ensures
            r matches Some(i) ==> i < self@.subs.len() && self@.subs[i as int].handle == h,
            r is None ==> !self@.has_handle(h),
    {
        let mut i: usize = 0;
        while i < self.subs.len()
            invariant
                i <= self.subs.len(),
                forall|k: int| 0 <= k < i ==> self@.subs[k].handle != h,
            decreases self.subs.len() - i,
        {
            if self.subs[i].handle == h {
                return Some(i);
            }
            i = i + 1;
        }
        None
    }

    /// Delivers `event` to every subscription of `group_id`, in the order of
    /// the calls; a subscription whose outbox is full misses it.
    pub fn publish(&mut self, group_id: u128, event: ChatChannelMessages)
        requires
            old(self)@.wf(),
        ensures
            final(self)@.wf(),
            old(self)@.published(final(self)@, group_id, event),
    {
        let ghost start = self@;
        let n = self.subs.len();
        let mut i: usize = 0;
        while i < n
            invariant
                n == self.subs.len(),
                i <= n,
                self.next_handle == start.next_handle,
                self.capacity as nat == start.capacity,
                start.wf(),
                start.subs.len() == n,
                forall|k: int|
                    0 <= k < n ==> {
                        &&& (#[trigger] self@.subs[k]).handle == start.subs[k].handle
                        &&& self@.subs[k].group_id == start.subs[k].group_id
                        &&& self@.subs[k].outbox == if k < i {
                            delivered(start.subs[k], group_id, event, start.capacity)
                        } else {
                            start.subs[k].outbox
                        }
                    },
            decreases n - i,
        {
            let ghost before = self@;
            if self.subs[i].group_id == group_id && self.subs[i].outbox.len() < self.capacity {
                let e = event.clone();
                self.subs[i].outbox.push(e);
                proof {
                    assert(self@.subs =~= before.subs.update(
                        i as int,
                        SubscriptionView {
                            outbox: before.subs[i as int].outbox.push(event),
                            ..before.subs[i as int]
                        },
                    ));
                }
            }
            i = i + 1;
        }
    }

    /// Removes subscription `h`. Returns whether it was live; removing one
    /// that is not changes nothing.
    pub fn unsubscribe(&mut self, h: u64) -> (r: bool)
        requires
            old(self)@.wf(),
        ensures
            final(self)@.wf(),
            r == old(self)@.has_handle(h),
            final(self)@.next_handle == old(self)@.next_handle,
            final(self)@.capacity == old(self)@.capacity,
            !final(self)@.has_handle(h),
            r ==> exists|i: int|
                0 <= i < old(self)@.subs.len() && old(self)@.subs[i].handle == h
                    && final(self)@.subs == old(self)@.subs.remove(i),
            !r ==> final(self)@ == old(self)@,
    {
        match self.find(h) {
            Some(i) => {
                let _ = self.subs.remove(i);
                proof {
                    assert(self@.subs =~= old(self)@.subs.remove(i as int));
                }
                true
            },
            None => false,
        }
    }

    /// Hands out and empties the outbox of subscription `h`; an unknown
    /// handle gets nothing.
    pub fn take_events(&mut self, h: u64) -> (r: Vec<ChatChannelMessages>)
        requires
            old(self)@.wf(),
        ensures
            final(self)@.wf(),
            final(self)@.next_handle == old(self)@.next_handle,
            final(self)@.capacity == old(self)@.capacity,
            forall|i: int|
                0 <= i < old(self)@.subs.len() && old(self)@.subs[i].handle == h ==> {
                    &&& r@ == old(self)@.subs[i].outbox
                    &&& final(self)@.subs == old(self)@.subs.update(
                        i,
                        SubscriptionView { outbox: Seq::empty(), ..old(self)@.subs[i] },
                    )
                },
            !old(self)@.has_handle(h) ==> r@.len() == 0 && final(self)@ == old(self)@,
    {
        match self.find(h) {
            Some(i) => {
                let mut out: Vec<ChatChannelMessages> = Vec::new();
                std::mem::swap(&mut self.subs[i].outbox, &mut out);
                proof {
                    assert(self@.subs =~= old(self)@.subs.update(
                        i as int,
                        SubscriptionView { outbox: Seq::empty(), ..old(self)@.subs[i as int] },
                    ));
                }
                out
            },
            None => Vec::new(),
        }
    }

    /// Whether group `group_id` has a channel: at least one subscription.
    pub fn has_channel(&self, group_id: u128) -> (r: bool)
        ensures
            r == self@.has_channel(group_id),
    {
        let mut i: usize = 0;
        while i < self.subs.len()
            invariant
                i <= self.subs.len(),
                forall|k: int| 0 <= k < i ==> self@.subs[k].group_id != group_id,
            decreases self.subs.len() - i,
        {
            if self.subs[i].group_id == group_id {
                assert(self@.subs[i as int].group_id == group_id);
                return true;
            }
            i = i + 1;
        }
        false
    }
}

} // verus!
