//! The latest-value broadcast store.
//!
//! The store keeps one value and a version that grows by one on every update.
//! Each subscriber keeps its own cursor: the version it saw last. A pull hands out
//! the current value only when it is newer than the cursor, so a slow subscriber
//! skips the values that were superseded before it looked.
//!
//! Waiting for the next update is left to whoever drives the store: the decisions
//! made here are exactly what a reader, holding the lock, does before it waits.

use vstd::prelude::*;

verus! {

/// Holds the most recent value with its version (`None` before the first update).
pub struct UpdateStream<T> {
    holder: Option<(u64, T)>,
}

/// A subscriber's cursor: the version of the last value it received (0 for none).
pub struct Subscription {
    last_seen: u64,
}

/// What a store holds: the version of its value (0 before the first update), and
/// the value, if any was ever stored.
pub ghost struct StoreView<T> {
    pub version: nat,
    pub current: Option<T>,
}

impl<T> View for UpdateStream<T> {
    type V = StoreView<T>;

    closed spec fn view(&self) -> StoreView<T> {
        match self.holder {
            Some((v, x)) => StoreView { version: v as nat, current: Some(x) },
            None => StoreView { version: 0, current: None },
        }
    }
}

impl View for Subscription {
    type V = nat;

    /// The version this subscriber received last.
    closed spec fn view(&self) -> nat {
        self.last_seen as nat
    }
}

/// A value is stored exactly when the version is past 0.
pub open spec fn store_wf<T>(s: StoreView<T>) -> bool {
    s.current is Some <==> s.version >= 1
}

/// The store after an update with `x`.
pub open spec fn updated<T>(s: StoreView<T>, x: T) -> StoreView<T> {
    StoreView { version: s.version + 1, current: Some(x) }
}

/// What a pull by a subscriber that has seen version `seen` hands out: the current
/// value when it is newer, else nothing (the subscriber waits for the next update).
pub open spec fn pulled<T>(seen: nat, s: StoreView<T>) -> Option<T> {
    if s.version > seen {
        s.current
    } else {
        None
    }
}

/// The subscriber's cursor after that pull.
pub open spec fn seen_after<T>(seen: nat, s: StoreView<T>) -> nat {
    if s.version > seen {
        s.version
    } else {
        seen
    }
}

impl<T> UpdateStream<T> {
    /// Versions start at 1: a stored value never carries version 0.
    pub open spec fn wf(&self) -> bool {
        store_wf(self@)
    }

    /// An empty store.
    pub fn new() -> (r: Self)
        ensures
            r@ == (StoreView::<T> { version: 0, current: None }),
            r.wf(),
    {
        UpdateStream { holder: None }
    }

    /// The version of the current value; 0 before the first update.
    pub fn version(&self) -> (r: u64)
        ensures
            r == self@.version,
    {
        match &self.holder {
            Some((v, _)) => *v,
            None => 0,
        }
    }

    /// Replaces the value; its version is one more than the previous one (1 for the
    /// first). Nothing here depends on the subscribers.
    pub fn update(&mut self, new_data: T)
        requires
            old(self).wf(),
            old(self)@.version < u64::MAX,
        ensures
            final(self)@ == updated(old(self)@, new_data),
            final(self).wf(),
    {
        let idx: u64 = self.version();
        self.holder = Some((idx + 1, new_data));
    }

    /// Starts a subscription that has received nothing yet: its first pull sees
    /// the current value, if any.
    pub fn stream_updates(&self) -> (r: Subscription)
        ensures
            r@ == 0,
    {
        Subscription { last_seen: 0 }
    }
}

impl Subscription {
    /// The version this subscriber received last.
    pub fn last_seen(&self) -> (r: u64)
        ensures
            r == self@,
    {
        self.last_seen
    }

    /// Pulls from `store`: the current value if it is newer than anything this
    /// subscriber received, and the cursor moves to its version; otherwise `None`,
    /// and the cursor stays.
    pub fn poll_update<'a, T>(&mut self, store: &'a UpdateStream<T>) -> (r: Option<&'a T>)
        requires
            store.wf(),
        ensures
            r is Some <==> store@.version > old(self)@,
            r matches Some(x) ==> store@.current == Some(*x),
            match r {
                Some(x) => pulled(old(self)@, store@) == Some(*x),
                None => pulled(old(self)@, store@) is None,
            },
            final(self)@ == seen_after(old(self)@, store@),
    {
        match &store.holder {
            Some((v, x)) => {
                if *v > self.last_seen {
                    self.last_seen = *v;
                    Some(x)
                } else {
                    None
                }
            },
            None => None,
        }
    }
}

/// One thing that happens to a store and one of its subscribers.
pub ghost enum Event<T> {
    Update(T),
    Pull,
}

/// The store after updates with each of `xs`, in order.
pub open spec fn updated_all<T>(s: StoreView<T>, xs: Seq<T>) -> StoreView<T>
    decreases xs.len(),
{
    if xs.len() == 0 {
        s
    } else {
        updated(updated_all(s, xs.drop_last()), xs.last())
    }
}

/// Runs `events` against a store and one subscriber that has seen version `seen`;
/// returns the store, the subscriber's cursor, and the version of each value the
/// subscriber received, in order.
pub open spec fn replay<T>(s: StoreView<T>, seen: nat, events: Seq<Event<T>>) -> (StoreView<T>, nat, Seq<nat>)
    decreases events.len(),
{
    if events.len() == 0 {
        (s, seen, Seq::empty())
    } else {
        let (st, c, vs) = replay(s, seen, events.drop_last());
        match events.last() {
            Event::Update(x) => (updated(st, x), c, vs),
            Event::Pull => if pulled(c, st) is Some {
                (st, seen_after(c, st), vs.push(st.version))
            } else {
                (st, c, vs)
            },
        }
    }
}

/// A subscriber that starts after a value was stored receives that value on its
/// first pull, without waiting for another update.
pub proof fn lemma_first_pull_sees_current<T>(s: StoreView<T>, x: T)
    ensures
        pulled(0, updated(s, x)) == Some(x),
{
}

/// Each subscriber receives values in strictly increasing version order, all newer
/// than what it had received before, whatever the interleaving of updates and pulls.
pub proof fn lemma_versions_increase<T>(s: StoreView<T>, seen: nat, events: Seq<Event<T>>)
    ensures
        ({
            let vs = replay(s, seen, events).2;
            &&& forall|i: int, j: int| 0 <= i < j < vs.len() ==> vs[i] < vs[j]
            &&& forall|i: int| 0 <= i < vs.len() ==> seen < vs[i]
        }),
    decreases events.len(),
{
    if events.len() > 0 {
        lemma_versions_increase(s, seen, events.drop_last());
        lemma_replay_cursor(s, seen, events.drop_last());
    }
}

/// The cursor after `events` is the last version received, or where it started.
proof fn lemma_replay_cursor<T>(s: StoreView<T>, seen: nat, events: Seq<Event<T>>)
    ensures
        ({
            let (st, c, vs) = replay(s, seen, events);
            &&& vs.len() == 0 ==> c == seen
            &&& vs.len() > 0 ==> c == vs.last()
        }),
    decreases events.len(),
{
    if events.len() > 0 {
        lemma_replay_cursor(s, seen, events.drop_last());
    }
}

/// Updates that land between two pulls are not queued: the next pull hands out
/// the last of them, and the earlier ones are skipped.
pub proof fn lemma_pull_sees_latest<T>(s: StoreView<T>, seen: nat, xs: Seq<T>)
    requires
        seen <= s.version,
        xs.len() > 0,
    ensures
        pulled(seen, updated_all(s, xs)) == Some(xs.last()),
{
    lemma_updated_all_version(s, xs);
}

/// Each update counts once in the version.
pub proof fn lemma_updated_all_version<T>(s: StoreView<T>, xs: Seq<T>)
    ensures
        updated_all(s, xs).version == s.version + xs.len(),
    decreases xs.len(),
{
    if xs.len() > 0 {
        lemma_updated_all_version(s, xs.drop_last());
    }
}

} // verus!
