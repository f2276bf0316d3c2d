//! Publish/subscribe. Subscribers live in a table owned by whoever owns them;
//! a bus holds only handles into that table, in registration order, and
//! delivers an event to the subscribers whose slot is still alive, silently
//! skipping those that were released.

use std::marker::PhantomData;
use vstd::prelude::*;

verus! {

/// Something that reacts to events of type `T`.
pub trait EventObserver<T> {
    fn on_event_mut(&mut self, data: &T);
}

/// A non-owning reference to a subscriber: its slot in a `Subscribers` table.
pub type SubscriberId = usize;

/// The owner's table of subscribers. Releasing a subscriber leaves a
/// tombstone, so handles to it stay valid and are seen as expired.
pub struct Subscribers<O> {
    slots: Vec<Option<O>>,
}

impl<O> Subscribers<O> {
    /// The slots: a subscriber, or nothing once released.
    pub closed spec fn slots(&self) -> Seq<Option<O>> {
        self.slots@
    }

    /// For each slot, whether its subscriber is still alive.
    pub open spec fn alive(&self) -> Seq<bool> {
        self.slots().map_values(|s: Option<O>| s is Some)
    }

    pub open spec fn is_alive_spec(&self, h: SubscriberId) -> bool {
        h < self.alive().len() && self.alive()[h as int]
    }

    pub fn new() -> (r: Self)
        ensures
            r.alive() == Seq::<bool>::empty(),
    {
        Subscribers { slots: Vec::new() }
    }

    /// Stores a new subscriber and returns its handle.
    pub fn insert(&mut self, observer: O) -> (h: SubscriberId)
        ensures
            h == old(self).slots().len(),
            final(self).slots() == old(self).slots().push(Some(observer)),
            final(self).alive() == old(self).alive().push(true),
    {
        let h = self.slots.len();
        self.slots.push(Some(observer));
        proof {
            assert(self.alive() =~= old(self).alive().push(true));
        }
        h
    }

    /// Drops the subscriber behind `h`; every handle to it expires.
    pub fn release(&mut self, h: SubscriberId)
        ensures
            h < old(self).slots().len() ==> final(self).slots() == old(self).slots().update(
                h as int,
                None,
            ),
            h >= old(self).slots().len() ==> final(self).slots() == old(self).slots(),
            h < old(self).alive().len() ==> final(self).alive() == old(self).alive().update(
                h as int,
                false,
            ),
            h >= old(self).alive().len() ==> final(self).alive() == old(self).alive(),
    {
        if h < self.slots.len() {
            self.slots.set(h, None);
            proof {
                assert(self.alive() =~= old(self).alive().update(h as int, false));
            }
        }
    }

    /// Whether the subscriber behind `h` is still alive.
    pub fn is_alive(&self, h: SubscriberId) -> (r: bool)
        ensures
            r == self.is_alive_spec(h),
    {
        h < self.slots.len() && self.slots[h].is_some()
    }

    /// The subscriber behind `h`, if it is still alive.
    pub fn get(&self, h: SubscriberId) -> (r: Option<&O>)
        ensures
            r is Some <==> self.is_alive_spec(h),
            r matches Some(o) ==> self.slots()[h as int] == Some(*o),
    {
        if h < self.slots.len() {
            match &self.slots[h] {
                Some(o) => Some(o),
                None => None,
            }
        } else {
            None
        }
    }
}

/// The handles among `handles` whose subscriber is alive, in order: the
/// subscribers an event reaches.
pub open spec fn deliveries(handles: Seq<SubscriberId>, alive: Seq<bool>) -> Seq<SubscriberId> {
    handles.filter(|h: SubscriberId| h < alive.len() && alive[h as int])
}

/// The subscriber list of one event type.
pub struct EventBusBase<T> {
    subscribers: Vec<SubscriberId>,
    init: bool,
    marker: PhantomData<T>,
}

impl<T> EventBusBase<T> {
    /// Registered handles, in registration order.
    pub closed spec fn handles(&self) -> Seq<SubscriberId> {
        self.subscribers@
    }

    pub closed spec fn is_init_spec(&self) -> bool {
        self.init
    }

    pub fn new() -> (r: Self)
        ensures
            r.handles() == Seq::<SubscriberId>::empty(),
            r.is_init_spec(),
    {
        EventBusBase { subscribers: Vec::new(), init: true, marker: PhantomData }
    }

    pub fn is_init(&self) -> (r: bool)
        ensures
            r == self.is_init_spec(),
    {
        self.init
    }

    /// Subscribes `h`, after every earlier subscriber.
    pub fn register(&mut self, h: SubscriberId)
        ensures
            final(self).handles() == old(self).handles().push(h),
            final(self).is_init_spec() == old(self).is_init_spec(),
    {
        self.subscribers.push(h);
    }

    /// Unsubscribes every registration of `h`; the others keep their order.
    pub fn unregister(&mut self, h: SubscriberId)
        ensures
            final(self).handles() == old(self).handles().filter(|x: SubscriberId| x != h),
            final(self).is_init_spec() == old(self).is_init_spec(),
    {
        let ghost pred = |x: SubscriberId| x != h;
        let mut kept: Vec<SubscriberId> = Vec::new();
        let mut i: usize = 0;
        while i < self.subscribers.len()
            invariant
                i <= self.subscribers@.len(),
                self.subscribers@ == old(self).subscribers@,
                pred == (|x: SubscriberId| x != h),
                kept@ == self.subscribers@.take(i as int).filter(pred),
            decreases self.subscribers@.len() - i,
        {
            let x = self.subscribers[i];
            proof {
                assert(self.subscribers@.take(i as int + 1) == self.subscribers@.take(
                    i as int,
                ).push(x));
                self.subscribers@.take(i as int).lemma_filter_push(x, pred);
            }
            if x != h {
                kept.push(x);
            }
            i = i + 1;
        }
        proof {
            assert(self.subscribers@.take(self.subscribers@.len() as int) == self.subscribers@);
        }
        self.subscribers = kept;
    }

    /// Delivers `data` to every registered subscriber that is still alive,
    /// in registration order; expired ones are skipped. Returns the handles
    /// delivered to.
    pub fn notify<O: EventObserver<T>>(&self, table: &mut Subscribers<O>, data: &T) -> (r: Vec<
        SubscriberId,
    >)
        ensures
            r@ == deliveries(self.handles(), old(table).alive()),
            final(table).alive() == old(table).alive(),
    {
        deliver(&self.subscribers, table, data)
    }
}

/// Delivers `data` to the live subscribers among `handles`, in order.
fn deliver<T, O: EventObserver<T>>(handles: &Vec<SubscriberId>, table: &mut Subscribers<O>, data: &T) -> (r: Vec<SubscriberId>)
    ensures
        r@ == deliveries(handles@, old(table).alive()),
        final(table).alive() == old(table).alive(),
{
    let ghost alive = table.alive();
    let ghost pred = |h: SubscriberId| h < alive.len() && alive[h as int];
    let mut delivered: Vec<SubscriberId> = Vec::new();
    let mut i: usize = 0;
    while i < handles.len()
        invariant
            i <= handles@.len(),
            table.alive() == alive,
            alive == old(table).alive(),
            pred == (|h: SubscriberId| h < alive.len() && alive[h as int]),
            delivered@ == handles@.take(i as int).filter(pred),
        decreases handles@.len() - i,
    {
        let h = handles[i];
        proof {
            assert(handles@.take(i as int + 1) == handles@.take(
                i as int,
            ).push(h));
            handles@.take(i as int).lemma_filter_push(h, pred);
        }
        if h < table.slots.len() {
            let ghost before = table.slots@;
            match &mut table.slots[h] {
                Some(observer) => {
                    observer.on_event_mut(data);
                    delivered.push(h);
                },
                None => {},
            }
            proof {
                assert(table.slots@.len() == before.len());
                assert(table.alive() =~= alive);
            }
        }
        i = i + 1;
    }
    proof {
        assert(handles@.take(handles@.len() as int) == handles@);
    }
    delivered
}

/// Subscriber lists keyed by event type identifier, each created on first
/// use.
pub struct EventDispatcher {
    holders: Vec<(usize, Vec<SubscriberId>)>,
}

impl EventDispatcher {
    /// The handles registered for events of type `event_type`, in
    /// registration order.
    pub closed spec fn subscribers_of(&self, event_type: usize) -> Seq<SubscriberId> {
        if exists|i: int| 0 <= i < self.holders@.len() && self.holders@[i].0 == event_type {
            let i = choose|i: int| 0 <= i < self.holders@.len() && self.holders@[i].0 == event_type;
            self.holders@[i].1@
        } else {
            Seq::empty()
        }
    }

    pub closed spec fn wf(&self) -> bool {
        forall|i: int, j: int|
            0 <= i < self.holders@.len() && 0 <= j < self.holders@.len() && i != j
                ==> self.holders@[i].0 != self.holders@[j].0
    }

    pub fn new() -> (r: Self)
        ensures
            r.wf(),
            forall|t: usize| #[trigger] r.subscribers_of(t) == Seq::<SubscriberId>::empty(),
    {
        EventDispatcher { holders: Vec::new() }
    }

    fn find(&self, event_type: usize) -> (r: Option<usize>)
        requires
            self.wf(),
        ensures
            r is None ==> self.subscribers_of(event_type) == Seq::<SubscriberId>::empty(),
            r is None ==> forall|i: int| 0 <= i < self.holders@.len() ==> self.holders@[i].0 != event_type,
            r matches Some(i) ==> i < self.holders@.len() && self.holders@[i as int].0 == event_type
                && self.subscribers_of(event_type) == self.holders@[i as int].1@,
    {
        let mut i: usize = 0;
        while i < self.holders.len()
            invariant
                i <= self.holders@.len(),
                self.wf(),
                forall|j: int| 0 <= j < i ==> self.holders@[j].0 != event_type,
            decreases self.holders@.len() - i,
        {
            if self.holders[i].0 == event_type {
                proof {
                    let k = choose|k: int| 0 <= k < self.holders@.len() && self.holders@[k].0 == event_type;
                    assert(k == i);
                }
                return Some(i);
            }
            i = i + 1;
        }
        None
    }

    /// Subscribes `h` to events of type `event_type`, after every earlier
    /// subscriber of that type.
    pub fn register(&mut self, event_type: usize, h: SubscriberId)
        requires
            old(self).wf(),
        ensures
            final(self).wf(),
            final(self).subscribers_of(event_type) == old(self).subscribers_of(event_type).push(h),
            forall|t: usize| t != event_type ==> #[trigger] final(self).subscribers_of(t) == old(self).subscribers_of(t),
    {
        match self.find(event_type) {
            Some(i) => {
                let (t, mut list) = self.holders.remove(i);
                list.push(h);
                self.holders.insert(i, (t, list));
                proof {
                    assert forall|t2: usize| #[trigger] self.subscribers_of(t2) == if t2 == event_type {
                        old(self).subscribers_of(t2).push(h)
                    } else {
                        old(self).subscribers_of(t2)
                    } by {
                        if exists|k: int| 0 <= k < old(self).holders@.len() && old(self).holders@[k].0 == t2 {
                            let k = choose|k: int| 0 <= k < old(self).holders@.len() && old(self).holders@[k].0 == t2;
                            assert(self.holders@[k].0 == t2);
                        }
                        if exists|k: int| 0 <= k < self.holders@.len() && self.holders@[k].0 == t2 {
                            let k = choose|k: int| 0 <= k < self.holders@.len() && self.holders@[k].0 == t2;
                            assert(old(self).holders@[k].0 == t2);
                        }
                    }
                }
            },
            None => {
                let mut list: Vec<SubscriberId> = Vec::new();
                list.push(h);
                self.holders.push((event_type, list));
                proof {
                    let n = old(self).holders@.len() as int;
                    assert(self.holders@[n].0 == event_type);
                    assert forall|t2: usize| #[trigger] self.subscribers_of(t2) == if t2 == event_type {
                        old(self).subscribers_of(t2).push(h)
                    } else {
                        old(self).subscribers_of(t2)
                    } by {
                        if exists|k: int| 0 <= k < old(self).holders@.len() && old(self).holders@[k].0 == t2 {
                            let k = choose|k: int| 0 <= k < old(self).holders@.len() && old(self).holders@[k].0 == t2;
                            assert(self.holders@[k].0 == t2);
                        }
                        if exists|k: int| 0 <= k < self.holders@.len() && self.holders@[k].0 == t2 {
                            let k = choose|k: int| 0 <= k < self.holders@.len() && self.holders@[k].0 == t2;
                            if k < n {
                                assert(old(self).holders@[k].0 == t2);
                            }
                        }
                    }
                    assert(list@ =~= Seq::<SubscriberId>::empty().push(h));
                }
            },
        }
    }

    /// Delivers `data`, an event of type `event_type`, to every subscriber of
    /// that type that is still alive, in registration order. Returns the
    /// handles delivered to; an event type nobody subscribed to reaches
    /// nobody.
    pub fn notify<T, O: EventObserver<T>>(
        &self,
        event_type: usize,
        table: &mut Subscribers<O>,
        data: &T,
    ) -> (r: Vec<SubscriberId>)
        requires
            self.wf(),
        ensures
            r@ == deliveries(self.subscribers_of(event_type), old(table).alive()),
            final(table).alive() == old(table).alive(),
    {
        match self.find(event_type) {
            Some(i) => deliver(&self.holders[i].1, table, data),
            None => {
                proof {
                    assert(deliveries(Seq::<SubscriberId>::empty(), table.alive()) =~= Seq::<SubscriberId>::empty());
                }
                Vec::new()
            },
        }
    }
}

/// A subscriber that was released before an event is published does not
/// receive it, and publishing still reaches every live subscriber.
pub proof fn lemma_expired_subscriber_skipped(
    handles: Seq<SubscriberId>,
    alive: Seq<bool>,
    h: SubscriberId,
)
    requires
        h < alive.len(),
        !alive[h as int],
    ensures
        !deliveries(handles, alive).contains(h),
        forall|x: SubscriberId|
            handles.contains(x) && x < alive.len() && alive[x as int] ==> #[trigger] deliveries(
                handles,
                alive,
            ).contains(x),
{
    let pred = |x: SubscriberId| x < alive.len() && alive[x as int];
    if deliveries(handles, alive).contains(h) {
        let k = choose|k: int| 0 <= k < deliveries(handles, alive).len() && deliveries(handles, alive)[k] == h;
        handles.lemma_filter_pred(pred, k);
    }
    assert forall|x: SubscriberId|
        handles.contains(x) && x < alive.len() && alive[x as int] implies #[trigger] deliveries(
            handles,
            alive,
        ).contains(x) by {
        let k = choose|k: int| 0 <= k < handles.len() && handles[k] == x;
        handles.lemma_filter_contains(pred, k);
    }
}

} // verus!
