//! The unread-messages digest: the undelivered messages addressed to one
//! user, grouped by sender nickname. Groups appear in order of each
//! sender's first undelivered message; within a group the texts keep
//! their storage order.

use crate::messages::{Message, MessageV};
use crate::text::str_eq;
use vstd::prelude::*;

verus! {

/// One digest group: a sender and the texts they sent.
pub struct UserMessages {
    pub nickname: String,
    pub messages: Vec<String>,
}

pub ghost struct UserMessagesV {
    pub nickname: Seq<char>,
    pub messages: Seq<Seq<char>>,
}

impl View for UserMessages {
    type V = UserMessagesV;

    open spec fn view(&self) -> UserMessagesV {
        UserMessagesV {
            nickname: self.nickname@,
            messages: self.messages@.map_values(|s: String| s@),
        }
    }
}

/// The nickname a delivery item carries for its sender.
pub open spec fn sender_nick(m: MessageV) -> Seq<char> {
    match m.sender {
        Some(n) => n,
        None => Seq::empty(),
    }
}

/// The distinct sender nicknames of a batch, in order of first
/// appearance.
pub open spec fn spec_senders(ms: Seq<MessageV>) -> Seq<Seq<char>>
    decreases ms.len(),
{
    if ms.len() == 0 {
        Seq::empty()
    } else {
        let pre = spec_senders(ms.drop_last());
        if pre.contains(sender_nick(ms.last())) {
            pre
        } else {
            pre.push(sender_nick(ms.last()))
        }
    }
}

/// The texts one sender contributed to a batch, in order.
pub open spec fn spec_payloads_of(ms: Seq<MessageV>, nick: Seq<char>) -> Seq<Seq<char>> {
    ms.filter(|m: MessageV| sender_nick(m) == nick).map_values(|m: MessageV| m.payload)
}

/// A batch's sender list has no repeated nickname.
pub proof fn lemma_senders_distinct(ms: Seq<MessageV>)
    ensures
        forall|i: int, j: int|
            0 <= i < j < spec_senders(ms).len() ==> #[trigger] spec_senders(ms)[i]
                != #[trigger] spec_senders(ms)[j],
    decreases ms.len(),
{
    if ms.len() > 0 {
        lemma_senders_distinct(ms.drop_last());
        let pre = spec_senders(ms.drop_last());
        let n = sender_nick(ms.last());
        if !pre.contains(n) {
            assert(forall|k: int| 0 <= k < pre.len() ==> pre[k] != n);
        }
    }
}

/// Every message's sender stands in the batch's sender list.
proof fn lemma_senders_cover(ms: Seq<MessageV>, i: int)
    requires
        0 <= i < ms.len(),
    ensures
        spec_senders(ms).contains(sender_nick(ms[i])),
    decreases ms.len(),
{
    let pre = spec_senders(ms.drop_last());
    if i == ms.len() - 1 {
        if !pre.contains(sender_nick(ms.last())) {
            assert(spec_senders(ms)[pre.len() as int] == sender_nick(ms.last()));
        }
    } else {
        lemma_senders_cover(ms.drop_last(), i);
        assert(ms.drop_last()[i] == ms[i]);
        let k = choose|k: int| 0 <= k < pre.len() && pre[k] == sender_nick(ms[i]);
        if pre.contains(sender_nick(ms.last())) {
            assert(spec_senders(ms)[k] == sender_nick(ms[i]));
        } else {
            assert(spec_senders(ms)[k] == sender_nick(ms[i]));
        }
    }
}

/// A nickname outside the sender list contributed no text.
proof fn lemma_absent_sender_no_payloads(ms: Seq<MessageV>, nick: Seq<char>)
    requires
        !spec_senders(ms).contains(nick),
    ensures
        spec_payloads_of(ms, nick) == Seq::<Seq<char>>::empty(),
    decreases ms.len(),
{
    let pred = |m: MessageV| sender_nick(m) == nick;
    reveal(Seq::filter);
    if ms.len() == 0 {
        assert(spec_payloads_of(ms, nick) =~= Seq::<Seq<char>>::empty());
    } else {
        let pre = spec_senders(ms.drop_last());
        assert(!pre.contains(nick)) by {
            if pre.contains(nick) {
                let k = choose|k: int| 0 <= k < pre.len() && pre[k] == nick;
                if pre.contains(sender_nick(ms.last())) {
                    assert(spec_senders(ms)[k] == nick);
                } else {
                    assert(spec_senders(ms)[k] == nick);
                }
            }
        }
        lemma_absent_sender_no_payloads(ms.drop_last(), nick);
        lemma_senders_cover(ms, ms.len() - 1);
        assert(sender_nick(ms.last()) != nick);
        assert(ms.filter(pred) == ms.drop_last().filter(pred));
        assert(spec_payloads_of(ms, nick) =~= Seq::<Seq<char>>::empty());
    }
}

/// Groups a batch of delivery items by sender nickname, senders in order
/// of first appearance, texts in batch order. Every item must carry a
/// sender nickname.
pub fn group_unreceived(msgs: &Vec<Message>) -> (r: Vec<UserMessages>)
    requires
        forall|i: int| 0 <= i < msgs@.len() ==> (#[trigger] msgs@[i]@.sender) is Some,
    ensures
        r@.len() == spec_senders(msgs@.map_values(|m: Message| m@)).len(),
        forall|i: int|
            0 <= i < r@.len() ==> #[trigger] r@[i]@.nickname == spec_senders(
                msgs@.map_values(|m: Message| m@),
            )[i],
        forall|i: int|
            0 <= i < r@.len() ==> #[trigger] r@[i]@.messages == spec_payloads_of(
                msgs@.map_values(|m: Message| m@),
                spec_senders(msgs@.map_values(|m: Message| m@))[i],
            ),
{
    let ghost all = msgs@.map_values(|m: Message| m@);
    let n = msgs.len();
    let mut r: Vec<UserMessages> = Vec::new();
    let mut i: usize = 0;
    while i < n
        invariant
            i <= n,
            n == msgs@.len(),
            all == msgs@.map_values(|m: Message| m@),
            forall|k: int| 0 <= k < n ==> (#[trigger] all[k].sender) is Some,
            r@.len() == spec_senders(all.take(i as int)).len(),
            forall|k: int|
                0 <= k < r@.len() ==> #[trigger] r@[k]@.nickname == spec_senders(
                    all.take(i as int),
                )[k],
            forall|k: int|
                0 <= k < r@.len() ==> #[trigger] r@[k]@.messages == spec_payloads_of(
                    all.take(i as int),
                    spec_senders(all.take(i as int))[k],
                ),
        decreases n - i,
    {
        let ghost prefix = all.take(i as int);
        let ghost cur = all[i as int];
        let ghost nick = sender_nick(cur);
        proof {
            all.lemma_take_succ_push(i as int);
            assert(prefix.push(cur).drop_last() =~= prefix);
            assert(spec_senders(all.take(i as int + 1)) == if spec_senders(prefix).contains(nick) {
                spec_senders(prefix)
            } else {
                spec_senders(prefix).push(nick)
            });
            lemma_senders_distinct(prefix);
        }
        let m = &msgs[i];
        let m_nick: &String = match &m.sender {
            Some(s) => s,
            None => vstd::pervasive::unreached(),
        };
        let mut found: Option<usize> = None;
        let glen = r.len();
        let mut j: usize = 0;
        while j < glen
            invariant
                j <= glen,
                glen == r@.len(),
                m_nick@ == nick,
                forall|k: int|
                    0 <= k < r@.len() ==> #[trigger] r@[k]@.nickname == spec_senders(prefix)[k],
                r@.len() == spec_senders(prefix).len(),
                found is None ==> forall|k: int| 0 <= k < j ==> spec_senders(prefix)[k] != nick,
                found matches Some(f) ==> f < glen && spec_senders(prefix)[f as int] == nick,
            ensures
                found is None ==> forall|k: int|
                    0 <= k < glen ==> spec_senders(prefix)[k] != nick,
                found matches Some(f) ==> f < glen && spec_senders(prefix)[f as int] == nick,
            decreases glen - j,
        {
            if str_eq(r[j].nickname.as_str(), m_nick.as_str()) {
                proof {
                    assert(r@[j as int]@.nickname == nick);
                }
                found = Some(j);
                break ;
            }
            proof {
                assert(r@[j as int]@.nickname != nick);
                assert(spec_senders(prefix)[j as int] != nick);
            }
            j += 1;
        }
        let ghost oldr = r@;
        match found {
            Some(f) => {
                proof {
                    assert(spec_senders(prefix).contains(nick));
                    assert(spec_senders(all.take(i as int + 1)) == spec_senders(prefix));
                }
                r[f].messages.push(m.payload.clone());
                proof {
                    assert(forall|k: int| 0 <= k < oldr.len() && k != f ==> r@[k] == oldr[k]);
                    assert(r@[f as int]@.messages =~= oldr[f as int]@.messages.push(cur.payload));
                    assert(r@[f as int]@.nickname == oldr[f as int]@.nickname);
                    assert forall|k: int| 0 <= k < r@.len() implies #[trigger] r@[k]@.messages
                        == spec_payloads_of(
                        all.take(i as int + 1),
                        spec_senders(all.take(i as int + 1))[k],
                    ) by {
                        let gnick = spec_senders(prefix)[k];
                        let pred = |m: MessageV| sender_nick(m) == gnick;
                        prefix.lemma_filter_push(cur, pred);
                        if k == f {
                            assert(pred(cur));
                            assert(prefix.push(cur).filter(pred) == prefix.filter(pred).push(cur));
                            prefix.filter(pred).lemma_push_map_commute(
                                |m: MessageV| m.payload,
                                cur,
                            );
                        } else {
                            assert(gnick != nick);
                            assert(!pred(cur));
                        }
                    }
                }
            },
            None => {
                proof {
                    assert(forall|k: int|
                        0 <= k < spec_senders(prefix).len() ==> #[trigger] spec_senders(prefix)[k]
                            != nick);
                    assert(!spec_senders(prefix).contains(nick));
                    assert(spec_senders(all.take(i as int + 1)) == spec_senders(prefix).push(nick));
                    lemma_absent_sender_no_payloads(prefix, nick);
                }
                let mut one: Vec<String> = Vec::new();
                one.push(m.payload.clone());
                r.push(UserMessages { nickname: m_nick.clone(), messages: one });
                proof {
                    assert(forall|k: int| 0 <= k < oldr.len() ==> r@[k] == oldr[k]);
                    assert(r@.last()@.nickname == nick);
                    assert(r@.last()@.messages =~= Seq::<Seq<char>>::empty().push(cur.payload));
                    assert forall|k: int| 0 <= k < r@.len() implies #[trigger] r@[k]@.messages
                        == spec_payloads_of(
                        all.take(i as int + 1),
                        spec_senders(all.take(i as int + 1))[k],
                    ) by {
                        let gnick = spec_senders(all.take(i as int + 1))[k];
                        let pred = |m: MessageV| sender_nick(m) == gnick;
                        prefix.lemma_filter_push(cur, pred);
                        if k == r@.len() - 1 {
                            assert(gnick == nick);
                            assert(pred(cur));
                            assert(prefix.push(cur).filter(pred) == prefix.filter(pred).push(cur));
                            prefix.filter(pred).lemma_push_map_commute(
                                |m: MessageV| m.payload,
                                cur,
                            );
                            assert(spec_payloads_of(prefix, nick) == Seq::<Seq<char>>::empty());
                            assert(prefix.filter(pred).map_values(|m: MessageV| m.payload).len()
                                == 0);
                            assert(prefix.filter(pred).len() == 0);
                            assert(prefix.filter(pred) =~= Seq::<MessageV>::empty());
                        } else {
                            assert(gnick == spec_senders(prefix)[k]);
                            assert(gnick != nick);
                            assert(!pred(cur));
                        }
                    }
                }
            },
        }
        i += 1;
    }
    proof {
        all.lemma_take_len();
    }
    r
}

} // verus!
