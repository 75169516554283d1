//! The state store: the latest immutable snapshot of all visual items,
//! and the subscribers told whenever it is replaced.
//!
//! Publication is one atomic swap of the whole snapshot; subscribers pull
//! the new snapshot when notified and are never handed deltas.  Delivering
//! the notifications is the caller's transport; the store says exactly who
//! must be told.

use vstd::prelude::*;

use crate::model::Visual;
use crate::repo::{visuals_of, visuals_view, Repository};

verus! {

/// Holds the published snapshot and the subscriber roster.
pub struct StateStore {
    snapshot: Vec<Visual>,
    subscribers: Vec<u64>,
    next_subscriber: u64,
}

impl StateStore {
    /// The published snapshot.
    pub closed spec fn snapshot(self) -> Seq<Visual> {
        self.snapshot@
    }

    /// The subscriber roster, in subscription order.
    pub closed spec fn subscribers(self) -> Seq<u64> {
        self.subscribers@
    }

    /// The token the next subscriber will get.
    pub closed spec fn next_subscriber(self) -> int {
        self.next_subscriber as int
    }

    /// An empty store: nothing published, nobody subscribed.
    pub fn new() -> (r: StateStore)
        ensures
            r.snapshot() == Seq::<Visual>::empty(),
            r.subscribers() == Seq::<u64>::empty(),
            r.next_subscriber() == 0,
    {
        let r = StateStore { snapshot: Vec::new(), subscribers: Vec::new(), next_subscriber: 0 };
        proof {
            assert(r.snapshot() =~= Seq::<Visual>::empty());
            assert(r.subscribers() =~= Seq::<u64>::empty());
        }
        r
    }

    /// Registers a subscriber and hands back its token.
    pub fn subscribe(&mut self) -> (id: u64)
        requires
            old(self).next_subscriber() < u64::MAX,
        ensures
            id as int == old(self).next_subscriber(),
            final(self).subscribers() == old(self).subscribers().push(id),
            final(self).next_subscriber() == old(self).next_subscriber() + 1,
            final(self).snapshot() == old(self).snapshot(),
    {
        let id = self.next_subscriber;
        self.subscribers.push(id);
        self.next_subscriber = self.next_subscriber + 1;
        id
    }

    /// The published snapshot, for reading; it is replaced only whole.
    pub fn get_snapshot(&self) -> (r: &Vec<Visual>)
        ensures
            r@ == self.snapshot(),
    {
        &self.snapshot
    }

    /// Replaces the snapshot in one swap and says who must be told: every
    /// subscriber, each exactly once, in subscription order.
    pub fn publish(&mut self, snapshot: Vec<Visual>) -> (notify: Vec<u64>)
        ensures
            final(self).snapshot() == snapshot@,
            final(self).subscribers() == old(self).subscribers(),
            final(self).next_subscriber() == old(self).next_subscriber(),
            notify@ == old(self).subscribers(),
    {
        self.snapshot = snapshot;
        let n = self.subscribers.len();
        let mut notify: Vec<u64> = Vec::new();
        proof {
            assert(notify@ =~= self.subscribers@.take(0));
        }
        let mut i: usize = 0;
        while i < n
            invariant
                n == self.subscribers@.len(),
                i <= n,
                notify@ == self.subscribers@.take(i as int),
            decreases n - i,
        {
            notify.push(self.subscribers[i]);
            proof {
                assert(notify@ =~= self.subscribers@.take(i + 1));
            }
            i = i + 1;
        }
        proof {
            assert(self.subscribers@.take(n as int) =~= self.subscribers@);
        }
        notify
    }
}

/// Closes a bootstrap run: loads every visual item from the repository,
/// publishes them as the new snapshot, and says who must be told.
pub fn publish_visuals(repo: &Repository, store: &mut StateStore) -> (notify: Vec<u64>)
    ensures
        visuals_view(final(store).snapshot()) == visuals_of(repo.pics(), repo.vids()),
        final(store).subscribers() == old(store).subscribers(),
        notify@ == old(store).subscribers(),
{
    let snapshot = repo.all_visuals();
    store.publish(snapshot)
}

} // verus!
