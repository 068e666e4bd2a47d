//! The message store: durable records of every message, their delivery
//! status, and conversation retrieval. Ids and timestamps are assigned by
//! the store, never by the caller; the `received` flag starts false and
//! only ever moves to true.

use crate::users::{spec_lookup_id, UserRecordV, UserRepo};
use vstd::prelude::*;

verus! {

/// A message as it travels to a connected client: the stored id, the
/// text, whether the receiving client is the message's sender (its own
/// echo), and, for store digests, the sender's nickname.
pub struct Message {
    pub id: u32,
    pub payload: String,
    pub is_sender: bool,
    pub sender: Option<String>,
}

pub ghost struct MessageV {
    pub id: u32,
    pub payload: Seq<char>,
    pub is_sender: bool,
    pub sender: Option<Seq<char>>,
}

impl View for Message {
    type V = MessageV;

    open spec fn view(&self) -> MessageV {
        MessageV {
            id: self.id,
            payload: self.payload@,
            is_sender: self.is_sender,
            sender: match self.sender {
                Some(ref n) => Some(n@),
                None => None,
            },
        }
    }
}

/// A message record as the store keeps it.
pub struct StoredMessage {
    pub id: u32,
    pub payload: String,
    pub sender_id: u32,
    pub addressee_id: u32,
    pub timestamp: u64,
    pub received: bool,
}

pub ghost struct StoredMessageV {
    pub id: u32,
    pub payload: Seq<char>,
    pub sender_id: u32,
    pub addressee_id: u32,
    pub timestamp: u64,
    pub received: bool,
}

impl View for StoredMessage {
    type V = StoredMessageV;

    open spec fn view(&self) -> StoredMessageV {
        StoredMessageV {
            id: self.id,
            payload: self.payload@,
            sender_id: self.sender_id,
            addressee_id: self.addressee_id,
            timestamp: self.timestamp,
            received: self.received,
        }
    }
}

/// Whether a record was exchanged between `a` and `b`, in either
/// direction.
pub open spec fn pair_matches(m: StoredMessageV, a: u32, b: u32) -> bool {
    (m.sender_id == a && m.addressee_id == b) || (m.sender_id == b && m.addressee_id == a)
}

/// All records exchanged between `a` and `b`, in storage (timestamp)
/// order.
pub open spec fn spec_conversation(msgs: Seq<StoredMessageV>, a: u32, b: u32) -> Seq<
    StoredMessageV,
> {
    msgs.filter(|m: StoredMessageV| pair_matches(m, a, b))
}

/// All undelivered records addressed to `addressee` whose sender still
/// resolves in the account directory, in storage order.
pub open spec fn spec_unreceived(
    msgs: Seq<StoredMessageV>,
    users: Seq<UserRecordV>,
    addressee: u32,
) -> Seq<StoredMessageV> {
    msgs.filter(
        |m: StoredMessageV|
            m.addressee_id == addressee && !m.received && spec_lookup_id(users, m.sender_id)
                is Some,
    )
}

/// The store after the record with the given id (if any) is marked
/// received; every other field and record is untouched.
pub open spec fn spec_mark_received(msgs: Seq<StoredMessageV>, id: u32) -> Seq<StoredMessageV> {
    Seq::new(
        msgs.len(),
        |i: int|
            if msgs[i].id == id {
                StoredMessageV { received: true, ..msgs[i] }
            } else {
                msgs[i]
            },
    )
}

/// How a stored record reaches the client identified by `viewer`: the
/// echo tag says whether the viewer wrote it.
pub open spec fn as_delivery(m: StoredMessageV, viewer: u32) -> MessageV {
    MessageV { id: m.id, payload: m.payload, is_sender: m.sender_id == viewer, sender: None }
}

/// How a replayed record must look: the stored id and text, no echo tag,
/// and the sender's nickname as the directory resolves the sender id.
pub open spec fn replay_item_ok(rm: MessageV, m: StoredMessageV, users: Seq<UserRecordV>) -> bool {
    &&& rm.id == m.id
    &&& rm.payload == m.payload
    &&& rm.is_sender == false
    &&& spec_lookup_id(users, m.sender_id) matches Some(rec) && rm.sender == Some(rec.nickname)
}

pub struct MessageRepo {
    pub msgs: Vec<StoredMessage>,
    pub next_id: u32,
    pub clock: u64,
}

impl MessageRepo {
    pub open spec fn view_msgs(&self) -> Seq<StoredMessageV> {
        self.msgs@.map_values(|m: StoredMessage| m@)
    }

    pub open spec fn wf(&self) -> bool {
        &&& 1 <= self.next_id
        &&& forall|i: int|
            0 <= i < self.view_msgs().len() ==> 1 <= #[trigger] self.view_msgs()[i].id
                < self.next_id
        &&& forall|i: int|
            0 <= i < self.view_msgs().len() ==> #[trigger] self.view_msgs()[i].timestamp
                < self.clock
        &&& forall|i: int, j: int|
            0 <= i < j < self.view_msgs().len() ==> self.view_msgs()[i].id < self.view_msgs()[j].id
        &&& forall|i: int, j: int|
            0 <= i < j < self.view_msgs().len() ==> self.view_msgs()[i].timestamp
                < self.view_msgs()[j].timestamp
    }

    pub fn new() -> (r: Self)
        ensures
            r.wf(),
            r.view_msgs() == Seq::<StoredMessageV>::empty(),
            r.next_id == 1,
    {
        let r = MessageRepo { msgs: Vec::new(), next_id: 1, clock: 0 };
        proof {
            assert(r.view_msgs() =~= Seq::<StoredMessageV>::empty());
        }
        r
    }

    /// Inserts a new record with `received == false`, a fresh id and the
    /// store's current timestamp, and returns the id. Fails (returning
    /// `None` and changing nothing) exactly when the store has run out of
    /// ids or timestamps.
    pub fn store_msg(&mut self, payload: String, sender: u32, addressee: u32) -> (r: Option<u32>)
        requires
            old(self).wf(),
        ensures
            final(self).wf(),
            r is Some <==> (old(self).next_id < u32::MAX && old(self).clock < u64::MAX),
            r is Some ==> {
                &&& r == Some(old(self).next_id)
                &&& final(self).view_msgs() == old(self).view_msgs().push(
                    StoredMessageV {
                        id: old(self).next_id,
                        payload: payload@,
                        sender_id: sender,
                        addressee_id: addressee,
                        timestamp: old(self).clock,
                        received: false,
                    },
                )
                &&& final(self).next_id == old(self).next_id + 1
                &&& final(self).clock == old(self).clock + 1
            },
            r is None ==> *final(self) == *old(self),
    {
        if self.next_id == u32::MAX || self.clock == u64::MAX {
            return None;
        }
        let id = self.next_id;
        let rec = StoredMessage {
            id,
            payload,
            sender_id: sender,
            addressee_id: addressee,
            timestamp: self.clock,
            received: false,
        };
        let ghost oldv = self.view_msgs();
        let ghost recv = rec@;
        self.msgs.push(rec);
        self.next_id = id + 1;
        self.clock = self.clock + 1;
        proof {
            assert(forall|k: int|
                0 <= k < old(self).msgs@.len() ==> oldv[k] == #[trigger] old(self).msgs@[k]@);
            assert(self.view_msgs() =~= oldv.push(recv));
        }
        Some(id)
    }

    /// Marks the record with the given id as received. Idempotent: a
    /// second call changes nothing; no other record or field is touched.
    pub fn message_received(&mut self, message_id: u32)
        requires
            old(self).wf(),
        ensures
            final(self).wf(),
            final(self).view_msgs() == spec_mark_received(old(self).view_msgs(), message_id),
            final(self).next_id == old(self).next_id,
            final(self).clock == old(self).clock,
    {
        let ghost oldv = old(self).view_msgs();
        let n = self.msgs.len();
        let mut i: usize = 0;
        while i < n
            invariant
                i <= n,
                n == self.msgs@.len(),
                oldv.len() == n,
                self.next_id == old(self).next_id,
                self.clock == old(self).clock,
                forall|k: int|
                    0 <= k < i ==> #[trigger] self.msgs@[k]@ == spec_mark_received(
                        oldv,
                        message_id,
                    )[k],
                forall|k: int| i <= k < n ==> #[trigger] self.msgs@[k]@ == oldv[k],
            decreases n - i,
        {
            let ghost prev = self.msgs@;
            proof {
                assert(prev[i as int]@ == oldv[i as int]);
            }
            if self.msgs[i].id == message_id {
                self.msgs[i].received = true;
                proof {
                    assert(forall|k: int| 0 <= k < n && k != i ==> self.msgs@[k] == prev[k]);
                    assert(self.msgs@[i as int].id == prev[i as int].id);
                    assert(self.msgs@[i as int].payload == prev[i as int].payload);
                    assert(self.msgs@[i as int].sender_id == prev[i as int].sender_id);
                    assert(self.msgs@[i as int].addressee_id == prev[i as int].addressee_id);
                    assert(self.msgs@[i as int].timestamp == prev[i as int].timestamp);
                    assert(self.msgs@[i as int].received == true);
                }
            }
            proof {
                assert(self.msgs@[i as int]@ == spec_mark_received(oldv, message_id)[i as int]);
            }
            i += 1;
        }
        proof {
            assert(self.view_msgs() =~= spec_mark_received(oldv, message_id));
        }
    }

    /// The whole conversation between `sender` and `addressee`:
    /// every record exchanged between them, ascending by timestamp, each
    /// tagged with whether `sender` wrote it.
    pub fn get_messages(&self, sender: u32, addressee: u32) -> (r: Vec<Message>)
        ensures
            r@.len() == spec_conversation(self.view_msgs(), sender, addressee).len(),
            forall|i: int|
                0 <= i < r@.len() ==> #[trigger] r@[i]@ == as_delivery(
                    spec_conversation(self.view_msgs(), sender, addressee)[i],
                    sender,
                ),
    {
        let ghost pred = |m: StoredMessageV| pair_matches(m, sender, addressee);
        let n = self.msgs.len();
        let mut r: Vec<Message> = Vec::new();
        let mut i: usize = 0;
        while i < n
            invariant
                i <= n,
                n == self.msgs@.len(),
                pred == (|m: StoredMessageV| pair_matches(m, sender, addressee)),
                r@.len() == self.view_msgs().take(i as int).filter(pred).len(),
                forall|k: int|
                    0 <= k < r@.len() ==> #[trigger] r@[k]@ == as_delivery(
                        self.view_msgs().take(i as int).filter(pred)[k],
                        sender,
                    ),
            decreases n - i,
        {
            let ghost prefix = self.view_msgs().take(i as int);
            let ghost cur = self.view_msgs()[i as int];
            proof {
                self.view_msgs().lemma_take_succ_push(i as int);
                prefix.lemma_filter_push(cur, pred);
            }
            let m = &self.msgs[i];
            let matches_pair = (m.sender_id == sender && m.addressee_id == addressee) || (
            m.sender_id == addressee && m.addressee_id == sender);
            if matches_pair {
                r.push(
                    Message {
                        id: m.id,
                        payload: m.payload.clone(),
                        is_sender: m.sender_id == sender,
                        sender: None,
                    },
                );
            }
            i += 1;
        }
        proof {
            self.view_msgs().lemma_take_len();
        }
        r
    }

    /// The undelivered records addressed to `addressee`, ascending by
    /// timestamp, each tagged `is_sender == false` and carrying the
    /// sender's nickname as the directory resolves it. Records whose
    /// sender has no account are left out.
    pub fn get_unreceived_msgs(&self, addressee: u32, users: &UserRepo) -> (r: Vec<Message>)
        ensures
            r@.len() == spec_unreceived(self.view_msgs(), users.view_users(), addressee).len(),
            forall|i: int|
                0 <= i < r@.len() ==> replay_item_ok(
                    #[trigger] r@[i]@,
                    spec_unreceived(self.view_msgs(), users.view_users(), addressee)[i],
                    users.view_users(),
                ),
    {
        let ghost usersv = users.view_users();
        let ghost pred = |m: StoredMessageV|
            m.addressee_id == addressee && !m.received && spec_lookup_id(usersv, m.sender_id)
                is Some;
        let n = self.msgs.len();
        let mut r: Vec<Message> = Vec::new();
        let mut i: usize = 0;
        while i < n
            invariant
                i <= n,
                n == self.msgs@.len(),
                usersv == users.view_users(),
                pred == (|m: StoredMessageV|
                    m.addressee_id == addressee && !m.received && spec_lookup_id(
                        usersv,
                        m.sender_id,
                    ) is Some),
                r@.len() == self.view_msgs().take(i as int).filter(pred).len(),
                forall|k: int|
                    0 <= k < r@.len() ==> replay_item_ok(
                        #[trigger] r@[k]@,
                        self.view_msgs().take(i as int).filter(pred)[k],
                        usersv,
                    ),
            decreases n - i,
        {
            let ghost prefix = self.view_msgs().take(i as int);
            let ghost cur = self.view_msgs()[i as int];
            proof {
                assert(cur == self.msgs@[i as int]@);
                self.view_msgs().lemma_take_succ_push(i as int);
                prefix.lemma_filter_push(cur, pred);
            }
            let ghost oldr = r@;
            let m = &self.msgs[i];
            if m.addressee_id == addressee && !m.received {
                match users.nickname_of(m.sender_id) {
                    Some(nick) => {
                        r.push(
                            Message {
                                id: m.id,
                                payload: m.payload.clone(),
                                is_sender: false,
                                sender: Some(nick.clone()),
                            },
                        );
                        proof {
                            assert(pred(cur));
                            assert(r@[r@.len() - 1]@.sender == Some(nick@));
                            assert(replay_item_ok(r@[r@.len() - 1]@, cur, usersv));
                            assert(forall|k: int| 0 <= k < oldr.len() ==> r@[k] == oldr[k]);
                        }
                    },
                    None => {
                        proof {
                            assert(!pred(cur));
                        }
                    },
                }
            } else {
                proof {
                    assert(!pred(cur));
                }
            }
            i += 1;
        }
        proof {
            self.view_msgs().lemma_take_len();
        }
        r
    }
}

/// Ordering law: a conversation holds every stored record exchanged
/// between the two users and nothing else, and its timestamps strictly
/// ascend (storage order), irrespective of direction.
pub proof fn lemma_conversation_ordered(msgs: Seq<StoredMessageV>, a: u32, b: u32)
    requires
        forall|i: int, j: int|
            0 <= i < j < msgs.len() ==> #[trigger] msgs[i].timestamp < #[trigger] msgs[j].timestamp,
    ensures
        forall|i: int, j: int|
            0 <= i < j < spec_conversation(msgs, a, b).len() ==> #[trigger] spec_conversation(
                msgs,
                a,
                b,
            )[i].timestamp < #[trigger] spec_conversation(msgs, a, b)[j].timestamp,
        forall|i: int|
            0 <= i < msgs.len() && pair_matches(#[trigger] msgs[i], a, b) ==> spec_conversation(
                msgs,
                a,
                b,
            ).contains(msgs[i]),
        forall|i: int|
            0 <= i < spec_conversation(msgs, a, b).len() ==> pair_matches(
                #[trigger] spec_conversation(msgs, a, b)[i],
                a,
                b,
            ),
{
    let pred = |m: StoredMessageV| pair_matches(m, a, b);
    lemma_filter_sorted_by_timestamp(msgs, pred);
    assert forall|i: int|
        0 <= i < msgs.len() && pair_matches(#[trigger] msgs[i], a, b) implies spec_conversation(
        msgs,
        a,
        b,
    ).contains(msgs[i]) by {
        msgs.lemma_filter_contains(pred, i);
    }
    assert forall|i: int| 0 <= i < spec_conversation(msgs, a, b).len() implies pair_matches(
        #[trigger] spec_conversation(msgs, a, b)[i],
        a,
        b,
    ) by {
        msgs.lemma_filter_pred(pred, i);
    }
}

/// Filtering keeps a strictly-ascending timestamp order.
proof fn lemma_filter_sorted_by_timestamp(msgs: Seq<StoredMessageV>, pred: spec_fn(StoredMessageV) -> bool)
    requires
        forall|i: int, j: int|
            0 <= i < j < msgs.len() ==> #[trigger] msgs[i].timestamp < #[trigger] msgs[j].timestamp,
    ensures
        forall|i: int, j: int|
            0 <= i < j < msgs.filter(pred).len() ==> #[trigger] msgs.filter(pred)[i].timestamp
                < #[trigger] msgs.filter(pred)[j].timestamp,
    decreases msgs.len(),
{
    reveal(Seq::filter);
    if msgs.len() > 0 {
        let d = msgs.drop_last();
        assert(forall|i: int, j: int|
            0 <= i < j < d.len() ==> #[trigger] d[i].timestamp < #[trigger] d[j].timestamp);
        lemma_filter_sorted_by_timestamp(d, pred);
        if pred(msgs.last()) {
            let f = d.filter(pred);
            assert forall|k: int| 0 <= k < f.len() implies #[trigger] f[k].timestamp
                < msgs.last().timestamp by {
                lemma_filter_index_of(d, pred, k);
                let o = choose|o: int| 0 <= o < d.len() && d[o] == f[k];
                assert(msgs[o] == d[o]);
                assert(msgs[o].timestamp < msgs[msgs.len() - 1].timestamp);
            }
        }
    }
}

/// Every element of a filtered sequence stands somewhere in the unfiltered one.
proof fn lemma_filter_index_of<A>(s: Seq<A>, pred: spec_fn(A) -> bool, k: int)
    requires
        0 <= k < s.filter(pred).len(),
    ensures
        exists|o: int| 0 <= o < s.len() && s[o] == s.filter(pred)[k],
    decreases s.len(),
{
    reveal(Seq::filter);
    if s.len() > 0 {
        let d = s.drop_last();
        if pred(s.last()) && k == s.filter(pred).len() - 1 {
            assert(s[s.len() - 1] == s.filter(pred)[k]);
        } else {
            lemma_filter_index_of(d, pred, k);
            let o = choose|o: int| 0 <= o < d.len() && d[o] == d.filter(pred)[k];
            assert(s[o] == s.filter(pred)[k]);
        }
    }
}

/// At-most-once transition: marking the same record received twice is
/// the same as marking it once.
pub proof fn lemma_mark_received_idempotent(msgs: Seq<StoredMessageV>, id: u32)
    ensures
        spec_mark_received(spec_mark_received(msgs, id), id) == spec_mark_received(msgs, id),
{
    assert(spec_mark_received(spec_mark_received(msgs, id), id) =~= spec_mark_received(msgs, id));
}

/// The `received` flag never reverts, and marking changes nothing but
/// that flag of the addressed record: every already-received record stays
/// received, a record becomes received only if it carries the marked id,
/// and every other field is untouched.
pub proof fn lemma_mark_received_monotone(msgs: Seq<StoredMessageV>, id: u32)
    ensures
        spec_mark_received(msgs, id).len() == msgs.len(),
        forall|i: int|
            0 <= i < msgs.len() && msgs[i].received ==> #[trigger] spec_mark_received(
                msgs,
                id,
            )[i].received,
        forall|i: int|
            0 <= i < msgs.len() && #[trigger] spec_mark_received(msgs, id)[i].received ==> (
            msgs[i].received || msgs[i].id == id),
        forall|i: int|
            0 <= i < msgs.len() ==> {
                let m = #[trigger] spec_mark_received(msgs, id)[i];
                &&& m.id == msgs[i].id
                &&& m.payload == msgs[i].payload
                &&& m.sender_id == msgs[i].sender_id
                &&& m.addressee_id == msgs[i].addressee_id
                &&& m.timestamp == msgs[i].timestamp
            },
{
}

/// Offline durability: an undelivered record addressed to `b` shows up
/// in the conversation with its sender, shows up in the replay set for
/// `b` as long as its sender still has an account, and becomes received
/// once it is marked.
pub proof fn lemma_offline_durability(
    msgs: Seq<StoredMessageV>,
    users: Seq<UserRecordV>,
    i: int,
)
    requires
        0 <= i < msgs.len(),
        !msgs[i].received,
        spec_lookup_id(users, msgs[i].sender_id) is Some,
    ensures
        spec_conversation(msgs, msgs[i].sender_id, msgs[i].addressee_id).contains(msgs[i]),
        spec_unreceived(msgs, users, msgs[i].addressee_id).contains(msgs[i]),
        spec_mark_received(msgs, msgs[i].id)[i].received,
{
    msgs.lemma_filter_contains(
        |m: StoredMessageV| pair_matches(m, msgs[i].sender_id, msgs[i].addressee_id),
        i,
    );
    msgs.lemma_filter_contains(
        |m: StoredMessageV|
            m.addressee_id == msgs[i].addressee_id && !m.received && spec_lookup_id(
                users,
                m.sender_id,
            ) is Some,
        i,
    );
}

} // verus!
