//! The notification fan-out: the process-wide directory of long-lived
//! push-notification streams. A subscription is independent of chat
//! presence (a client may listen for notifications without an open chat
//! socket). Publishing is best effort: with no subscription the
//! notification is silently dropped, never stored or replayed.

use crate::assoc::{
    assoc_map, keys_distinct, lemma_assoc_index, lemma_assoc_not_contains_key, lemma_assoc_push,
    lemma_assoc_update,
};
use vstd::prelude::*;

verus! {

/// One push event: who the activity came from and the message text.
pub struct Notification {
    pub addressee_nickname: String,
    pub message: String,
}

pub ghost struct NotificationV {
    pub addressee_nickname: Seq<char>,
    pub message: Seq<char>,
}

impl View for Notification {
    type V = NotificationV;

    open spec fn view(&self) -> NotificationV {
        NotificationV { addressee_nickname: self.addressee_nickname@, message: self.message@ }
    }
}

/// A subscriber's stream: the published events it has not drained yet.
pub struct Notifier {
    pub queue: Vec<Notification>,
}

pub struct SubscriptionEntry {
    pub user_id: u32,
    pub notifier: Notifier,
}

/// What publishing to one user does to the fan-out: appends to the
/// user's stream when one is subscribed, nothing otherwise.
pub open spec fn publish_effect(
    m: Map<u32, Seq<NotificationV>>,
    user_id: u32,
    n: NotificationV,
) -> Map<u32, Seq<NotificationV>> {
    if m.contains_key(user_id) {
        m.insert(user_id, m[user_id].push(n))
    } else {
        m
    }
}

pub struct NotificationRepo {
    pub notifications: Vec<SubscriptionEntry>,
}

impl View for NotificationRepo {
    type V = Map<u32, Seq<NotificationV>>;

    open spec fn view(&self) -> Map<u32, Seq<NotificationV>> {
        assoc_map(self.view_entries())
    }
}

impl NotificationRepo {
    pub open spec fn view_entries(&self) -> Seq<(u32, Seq<NotificationV>)> {
        self.notifications@.map_values(
            |e: SubscriptionEntry| (e.user_id, e.notifier.queue@.map_values(|n: Notification| n@)),
        )
    }

    pub open spec fn wf(&self) -> bool {
        keys_distinct(self.view_entries())
    }

    pub fn new() -> (r: Self)
        ensures
            r.wf(),
            r@ == Map::<u32, Seq<NotificationV>>::empty(),
    {
        let r = NotificationRepo { notifications: Vec::new() };
        proof {
            assert(r.view_entries() =~= Seq::<(u32, Seq<NotificationV>)>::empty());
        }
        r
    }

    /// Opens (or reopens, overwriting any prior stream) the user's
    /// push-notification stream, initially empty.
    pub fn subscribe(&mut self, user_id: u32)
        requires
            old(self).wf(),
        ensures
            final(self).wf(),
            final(self)@ == old(self)@.insert(user_id, Seq::<NotificationV>::empty()),
    {
        let ghost olde = self.view_entries();
        let found = self.find_index(user_id);
        match found {
            Some(i) => {
                self.notifications[i].notifier = Notifier { queue: Vec::new() };
                proof {
                    assert(self.notifications@[i as int].notifier.queue@.map_values(
                        |n: Notification| n@,
                    ) =~= Seq::<NotificationV>::empty());
                    assert(forall|k: int|
                        0 <= k < olde.len() && k != i ==> self.notifications@[k] == old(
                            self,
                        ).notifications@[k]);
                    assert(self.view_entries() =~= olde.update(
                        i as int,
                        (user_id, Seq::<NotificationV>::empty()),
                    ));
                    lemma_assoc_update(olde, i as int, Seq::<NotificationV>::empty());
                }
            },
            None => {
                self.notifications.push(
                    SubscriptionEntry { user_id, notifier: Notifier { queue: Vec::new() } },
                );
                proof {
                    assert(self.notifications@.last().notifier.queue@.map_values(
                        |n: Notification| n@,
                    ) =~= Seq::<NotificationV>::empty());
                    assert(self.view_entries() =~= olde.push(
                        (user_id, Seq::<NotificationV>::empty()),
                    ));
                    lemma_assoc_push(olde, user_id, Seq::<NotificationV>::empty());
                }
            },
        }
    }

    /// Publishes one event to the user's stream; with no subscription the
    /// event is dropped.
    pub fn publish(&mut self, user_id: u32, n: Notification)
        requires
            old(self).wf(),
        ensures
            final(self).wf(),
            final(self)@ == publish_effect(old(self)@, user_id, n@),
    {
        let ghost olde = self.view_entries();
        let ghost nv = n@;
        let found = self.find_index(user_id);
        match found {
            Some(i) => {
                proof {
                    lemma_assoc_index(olde, i as int);
                }
                let ghost oldq = self.notifications@[i as int].notifier.queue@.map_values(
                    |x: Notification| x@,
                );
                self.notifications[i].notifier.queue.push(n);
                proof {
                    assert(self.notifications@[i as int].notifier.queue@.map_values(
                        |x: Notification| x@,
                    ) =~= oldq.push(nv));
                    assert(forall|k: int|
                        0 <= k < olde.len() && k != i ==> self.notifications@[k] == old(
                            self,
                        ).notifications@[k]);
                    assert(self.view_entries() =~= olde.update(i as int, (user_id, oldq.push(nv))));
                    lemma_assoc_update(olde, i as int, oldq.push(nv));
                }
            },
            None => {
                proof {
                    lemma_assoc_not_contains_key(olde, user_id);
                }
            },
        }
    }

    /// Hands the user's stream its next undrained event, if any.
    pub fn take_next(&mut self, user_id: u32) -> (r: Option<Notification>)
        requires
            old(self).wf(),
        ensures
            final(self).wf(),
            ({
                let live = old(self)@.contains_key(user_id) && old(self)@[user_id].len() > 0;
                match r {
                    Some(n) => live && n@ == old(self)@[user_id][0] && final(self)@ == old(
                        self,
                    )@.insert(user_id, old(self)@[user_id].drop_first()),
                    None => !live && *final(self) == *old(self),
                }
            }),
    {
        let ghost olde = self.view_entries();
        let found = self.find_index(user_id);
        match found {
            Some(i) => {
                proof {
                    lemma_assoc_index(olde, i as int);
                }
                if self.notifications[i].notifier.queue.len() > 0 {
                    let ghost oldq = self.notifications@[i as int].notifier.queue@.map_values(
                        |x: Notification| x@,
                    );
                    let n = self.notifications[i].notifier.queue.remove(0);
                    proof {
                        assert(self.notifications@[i as int].notifier.queue@.map_values(
                            |x: Notification| x@,
                        ) =~= oldq.drop_first());
                        assert(forall|k: int|
                            0 <= k < olde.len() && k != i ==> self.notifications@[k] == old(
                                self,
                            ).notifications@[k]);
                        assert(self.view_entries() =~= olde.update(
                            i as int,
                            (user_id, oldq.drop_first()),
                        ));
                        lemma_assoc_update(olde, i as int, oldq.drop_first());
                    }
                    Some(n)
                } else {
                    None
                }
            },
            None => {
                proof {
                    lemma_assoc_not_contains_key(olde, user_id);
                }
                None
            },
        }
    }

    /// The index of the user's subscription, if one exists.
    fn find_index(&self, user_id: u32) -> (r: Option<usize>)
        ensures
            match r {
                Some(i) => i < self.view_entries().len() && self.view_entries()[i as int].0
                    == user_id,
                None => forall|k: int|
                    0 <= k < self.view_entries().len() ==> (#[trigger] self.view_entries()[k]).0
                        != user_id,
            },
    {
        let n = self.notifications.len();
        let mut i: usize = 0;
        while i < n
            invariant
                i <= n,
                n == self.notifications@.len(),
                forall|k: int| 0 <= k < i ==> (#[trigger] self.view_entries()[k]).0 != user_id,
            decreases n - i,
        {
            if self.notifications[i].user_id == user_id {
                return Some(i);
            }
            i += 1;
        }
        None
    }
}

} // verus!
