//! The presence registry: the process-wide directory of currently
//! connected users. Each live session registers one delivery endpoint —
//! modelled as a queue its delivery loop drains — under its user id;
//! `route` appends to the addressee's queue when one is registered and
//! reports `Offline` (false) otherwise. Registrations carry a fresh
//! token so that teardown removes an entry only if it is still its own
//! (a reconnect overwrites the entry, and the stale session must not
//! unregister its successor).

use crate::assoc::{
    assoc_map, keys_distinct, lemma_assoc_index, lemma_assoc_not_contains_key, lemma_assoc_push,
    lemma_assoc_remove, lemma_assoc_update,
};
use crate::messages::{Message, MessageV};
use vstd::prelude::*;

verus! {

/// A registered delivery endpoint: the registration token and the
/// messages routed to it and not yet drained.
pub struct Client {
    pub token: u64,
    pub queue: Vec<Message>,
}

pub ghost struct ClientV {
    pub token: u64,
    pub queue: Seq<MessageV>,
}

impl View for Client {
    type V = ClientV;

    open spec fn view(&self) -> ClientV {
        ClientV { token: self.token, queue: self.queue@.map_values(|m: Message| m@) }
    }
}

pub struct PresenceEntry {
    pub user_id: u32,
    pub client: Client,
}

/// What routing one message to one user does to the registry: appends it
/// to the user's queue when the user is registered, nothing otherwise.
pub open spec fn route_effect(m: Map<u32, ClientV>, user_id: u32, msg: MessageV) -> Map<
    u32,
    ClientV,
> {
    if m.contains_key(user_id) {
        m.insert(user_id, ClientV { token: m[user_id].token, queue: m[user_id].queue.push(msg) })
    } else {
        m
    }
}

pub struct ClientRepo {
    pub entries: Vec<PresenceEntry>,
    pub next_token: u64,
}

impl View for ClientRepo {
    type V = Map<u32, ClientV>;

    open spec fn view(&self) -> Map<u32, ClientV> {
        assoc_map(self.view_entries())
    }
}

impl ClientRepo {
    pub open spec fn view_entries(&self) -> Seq<(u32, ClientV)> {
        self.entries@.map_values(|e: PresenceEntry| (e.user_id, e.client@))
    }

    pub open spec fn wf(&self) -> bool {
        &&& keys_distinct(self.view_entries())
        &&& forall|i: int|
            0 <= i < self.view_entries().len() ==> (#[trigger] self.view_entries()[i]).1.token
                < self.next_token
    }

    pub fn new() -> (r: Self)
        ensures
            r.wf(),
            r@ == Map::<u32, ClientV>::empty(),
    {
        let r = ClientRepo { entries: Vec::new(), next_token: 0 };
        proof {
            assert(r.view_entries() =~= Seq::<(u32, ClientV)>::empty());
        }
        r
    }

    /// Registers (or re-registers, overwriting) the user's endpoint with
    /// an empty queue, and returns the registration's fresh token.
    pub fn register(&mut self, user_id: u32) -> (token: u64)
        requires
            old(self).wf(),
            old(self).next_token < u64::MAX,
        ensures
            final(self).wf(),
            token == old(self).next_token,
            final(self)@ == old(self)@.insert(
                user_id,
                ClientV { token, queue: Seq::<MessageV>::empty() },
            ),
            final(self).next_token == old(self).next_token + 1,
    {
        let token = self.next_token;
        let ghost olde = self.view_entries();
        let found = self.find_index(user_id);
        match found {
            Some(i) => {
                self.entries[i].client = Client { token, queue: Vec::new() };
                proof {
                    assert(self.entries@[i as int].client@.queue =~= Seq::<MessageV>::empty());
                    assert(self.entries@[i as int].client@ == ClientV {
                        token,
                        queue: Seq::<MessageV>::empty(),
                    });
                    assert(forall|k: int|
                        0 <= k < olde.len() && k != i ==> self.entries@[k]
                            == old(self).entries@[k]);
                    assert(self.view_entries() =~= olde.update(
                        i as int,
                        (user_id, ClientV { token, queue: Seq::<MessageV>::empty() }),
                    ));
                    lemma_assoc_update(olde, i as int, ClientV { token, queue: Seq::empty() });
                }
            },
            None => {
                self.entries.push(PresenceEntry { user_id, client: Client { token, queue: Vec::new() } });
                proof {
                    assert(self.entries@.last().client@.queue =~= Seq::<MessageV>::empty());
                    assert(self.entries@.last().client@ == ClientV {
                        token,
                        queue: Seq::<MessageV>::empty(),
                    });
                    assert(self.view_entries() =~= olde.push(
                        (user_id, ClientV { token, queue: Seq::<MessageV>::empty() }),
                    ));
                    lemma_assoc_push(olde, user_id, ClientV { token, queue: Seq::empty() });
                }
            },
        }
        self.next_token = token + 1;
        token
    }

    /// Attempts live delivery: appends the message to the user's queue
    /// when the user is registered. Returns false — the routine offline
    /// case, not an error — when no endpoint is registered.
    pub fn route(&mut self, user_id: u32, m: Message) -> (delivered: bool)
        requires
            old(self).wf(),
        ensures
            final(self).wf(),
            delivered == old(self)@.contains_key(user_id),
            final(self)@ == route_effect(old(self)@, user_id, m@),
            final(self).next_token == old(self).next_token,
    {
        let ghost olde = self.view_entries();
        let ghost mv = m@;
        let found = self.find_index(user_id);
        match found {
            Some(i) => {
                proof {
                    lemma_assoc_index(olde, i as int);
                }
                let ghost oldclient = self.entries@[i as int].client@;
                self.entries[i].client.queue.push(m);
                proof {
                    assert(self.entries@[i as int].client@.queue =~= oldclient.queue.push(mv));
                    assert(self.entries@[i as int].client@ == ClientV {
                        token: oldclient.token,
                        queue: oldclient.queue.push(mv),
                    });
                    assert(forall|k: int|
                        0 <= k < olde.len() && k != i ==> self.entries@[k]
                            == old(self).entries@[k]);
                    assert(self.view_entries() =~= olde.update(
                        i as int,
                        (user_id, ClientV { token: oldclient.token, queue: oldclient.queue.push(mv) }),
                    ));
                    lemma_assoc_update(
                        olde,
                        i as int,
                        ClientV { token: oldclient.token, queue: oldclient.queue.push(mv) },
                    );
                }
                true
            },
            None => {
                proof {
                    lemma_assoc_not_contains_key(olde, user_id);
                }
                false
            },
        }
    }

    /// Hands the session's delivery loop its next pending message: the
    /// head of the user's queue, provided the registration token still
    /// matches (a stale session draws nothing). Returns `None`, changing
    /// nothing, when the entry is gone, overwritten, or empty.
    pub fn take_next(&mut self, user_id: u32, token: u64) -> (r: Option<Message>)
        requires
            old(self).wf(),
        ensures
            final(self).wf(),
            ({
                let live = old(self)@.contains_key(user_id) && old(self)@[user_id].token == token
                    && old(self)@[user_id].queue.len() > 0;
                match r {
                    Some(m) => live && m@ == old(self)@[user_id].queue[0] && final(self)@ == old(
                        self,
                    )@.insert(
                        user_id,
                        ClientV { token, queue: old(self)@[user_id].queue.drop_first() },
                    ),
                    None => !live && *final(self) == *old(self),
                }
            }),
            final(self).next_token == old(self).next_token,
    {
        let ghost olde = self.view_entries();
        let found = self.find_index(user_id);
        match found {
            Some(i) => {
                proof {
                    lemma_assoc_index(olde, i as int);
                }
                if self.entries[i].client.token == token && self.entries[i].client.queue.len() > 0 {
                    let ghost oldclient = self.entries@[i as int].client@;
                    let m = self.entries[i].client.queue.remove(0);
                    proof {
                        assert(self.entries@[i as int].client@.queue =~= oldclient.queue.drop_first());
                        assert(self.entries@[i as int].client@ == ClientV {
                            token,
                            queue: oldclient.queue.drop_first(),
                        });
                        assert(forall|k: int|
                            0 <= k < olde.len() && k != i ==> self.entries@[k]
                                == old(self).entries@[k]);
                        assert(self.view_entries() =~= olde.update(
                            i as int,
                            (user_id, ClientV { token, queue: oldclient.queue.drop_first() }),
                        ));
                        lemma_assoc_update(
                            olde,
                            i as int,
                            ClientV { token, queue: oldclient.queue.drop_first() },
                        );
                    }
                    Some(m)
                } else {
                    None
                }
            },
            None => {
                proof {
                    lemma_assoc_not_contains_key(olde, user_id);
                }
                None
            },
        }
    }

    /// Removes the user's entry, but only if it still belongs to the
    /// session holding this token; a newer registration is left alone.
    pub fn deregister(&mut self, user_id: u32, token: u64)
        requires
            old(self).wf(),
        ensures
            final(self).wf(),
            final(self)@ == if old(self)@.contains_key(user_id) && old(self)@[user_id].token
                == token {
                old(self)@.remove(user_id)
            } else {
                old(self)@
            },
            final(self).next_token == old(self).next_token,
    {
        let ghost olde = self.view_entries();
        let found = self.find_index(user_id);
        match found {
            Some(i) => {
                proof {
                    lemma_assoc_index(olde, i as int);
                }
                if self.entries[i].client.token == token {
                    self.entries.remove(i);
                    proof {
                        assert(self.view_entries() =~= olde.remove(i as int));
                        lemma_assoc_remove(olde, i as int);
                    }
                }
            },
            None => {
                proof {
                    lemma_assoc_not_contains_key(olde, user_id);
                }
            },
        }
    }

    /// The index of the user's entry, if one is registered.
    fn find_index(&self, user_id: u32) -> (r: Option<usize>)
        ensures
            match r {
                Some(i) => i < self.view_entries().len() && self.view_entries()[i as int].0
                    == user_id,
                None => forall|k: int|
                    0 <= k < self.view_entries().len() ==> (#[trigger] self.view_entries()[k]).0
                        != user_id,
            },
    {
        let n = self.entries.len();
        let mut i: usize = 0;
        while i < n
            invariant
                i <= n,
                n == self.entries@.len(),
                forall|k: int|
                    0 <= k < i ==> (#[trigger] self.view_entries()[k]).0 != user_id,
            decreases n - i,
        {
            if self.entries[i].user_id == user_id {
                return Some(i);
            }
            i += 1;
        }
        None
    }
}

} // verus!
