//! The per-connection session state machine: handshake, relaying,
//! teardown. A session starts `Handshaking` with an authenticated sender
//! identity, binds its addressee on the first valid `init_chat` frame
//! (registering in the presence registry and replaying undelivered
//! history), relays frames while `Relaying`, and ends `Closed`, removing
//! its own presence entry. The surrounding connection loops only decode
//! frames, write the frames these transitions hand back, and report
//! write outcomes; every decision lives here.

use crate::messages::{
    replay_item_ok, spec_mark_received, spec_unreceived, Message, MessageRepo, MessageV,
    StoredMessageV,
};
use crate::notifications::{publish_effect, Notification, NotificationRepo, NotificationV};
use crate::presence::{route_effect, ClientRepo, ClientV};
use crate::protocol::{ReqV, Request, RespV, Response};
use crate::text::str_eq;
use crate::users::{spec_lookup_nickname, UserRepo};
use vstd::prelude::*;
use vstd::string::StringExecFns;

verus! {

/// Everything the relay process shares across sessions: the account
/// directory, the message store, and the two registries.
pub struct MyState {
    pub client_repo: ClientRepo,
    pub message_repo: MessageRepo,
    pub user_repo: UserRepo,
    pub notification_repo: NotificationRepo,
}

impl MyState {
    pub open spec fn wf(&self) -> bool {
        &&& self.client_repo.wf()
        &&& self.message_repo.wf()
        &&& self.user_repo.wf()
        &&& self.notification_repo.wf()
    }

    pub fn new() -> (r: Self)
        ensures
            r.wf(),
            r.client_repo@ == Map::<u32, ClientV>::empty(),
            r.message_repo.view_msgs() == Seq::<StoredMessageV>::empty(),
            r.user_repo.view_users() == Seq::<crate::users::UserRecordV>::empty(),
            r.notification_repo@ == Map::<u32, Seq<NotificationV>>::empty(),
    {
        MyState {
            client_repo: ClientRepo::new(),
            message_repo: MessageRepo::new(),
            user_repo: UserRepo::new(),
            notification_repo: NotificationRepo::new(),
        }
    }
}

pub enum SessionState {
    Handshaking,
    Relaying { addressee_id: u32, token: u64 },
    Closed,
}

/// One connection's protocol driver. The sender identity comes from the
/// authentication collaborator before the session exists; the addressee
/// is bound once, by the handshake, and never changes.
pub struct Session {
    pub sender_id: u32,
    pub sender_nickname: String,
    pub state: SessionState,
}

/// What the handshake decided for one inbound frame.
pub enum HandshakeStep {
    /// Not a decodable `init_chat` frame: the connection stays open and
    /// the handshake waits for the next frame.
    AwaitNext,
    /// The request was rejected; the failure frame is written and the
    /// session is over. No presence entry was created.
    Rejected { failure: Response },
    /// The addressee is bound and the sender registered. The success
    /// frame is written first, then each replay item, reporting every
    /// write through `delivery_written`.
    Accepted { success: Response, replay: Vec<Message> },
}

impl Session {
    pub fn new(sender_id: u32, sender_nickname: String) -> (r: Self)
        ensures
            r.sender_id == sender_id,
            r.sender_nickname@ == sender_nickname@,
            r.state is Handshaking,
    {
        Session { sender_id, sender_nickname, state: SessionState::Handshaking }
    }

    pub open spec fn spec_addressee(&self) -> u32 {
        match self.state {
            SessionState::Relaying { addressee_id, .. } => addressee_id,
            _ => 0,
        }
    }

    pub open spec fn spec_token(&self) -> u64 {
        match self.state {
            SessionState::Relaying { token, .. } => token,
            _ => 0,
        }
    }

    /// Drives the handshake with one decoded inbound frame (`None` for a
    /// frame that did not decode). A self-chat request or an unknown
    /// addressee is rejected with the matching failure frame and no
    /// presence registration; anything that is not an `init_chat` frame
    /// leaves everything untouched and keeps waiting; a valid request
    /// binds the addressee, registers the sender, and hands back the
    /// success frame plus the undelivered history to replay, oldest
    /// first.
    pub fn handshake_frame(&mut self, state: &mut MyState, req: Option<Request>) -> (r:
        HandshakeStep)
        requires
            old(self).state is Handshaking,
            old(state).wf(),
            old(state).client_repo.next_token < u64::MAX,
        ensures
            final(state).wf(),
            final(self).sender_id == old(self).sender_id,
            final(self).sender_nickname == old(self).sender_nickname,
            !(req matches Some(q) && q@ is InitChat) ==> (r is AwaitNext && *final(self) == *old(
                self,
            ) && *final(state) == *old(state)),
            req matches Some(q) ==> (q@ matches ReqV::InitChat { addressee_nickname: n } ==> {
                if n == old(self).sender_nickname@ {
                    &&& r matches HandshakeStep::Rejected { failure } && failure@
                        == (RespV::ChatInitFailure { error: "You can't chat with yourself"@ })
                    &&& *final(state) == *old(state)
                    &&& final(self).state is Closed
                } else {
                    match spec_lookup_nickname(old(state).user_repo.view_users(), n) {
                        None => {
                            &&& r matches HandshakeStep::Rejected { failure } && failure@ == (
                            RespV::ChatInitFailure { error: "Addressee not found"@ })
                            &&& *final(state) == *old(state)
                            &&& final(self).state is Closed
                        },
                        Some(peer) => {
                            &&& final(self).state matches SessionState::Relaying {
                                addressee_id,
                                token,
                            } && addressee_id == peer.id && token == old(
                                state,
                            ).client_repo.next_token
                            &&& final(state).client_repo@ == old(state).client_repo@.insert(
                                old(self).sender_id,
                                ClientV {
                                    token: old(state).client_repo.next_token,
                                    queue: Seq::<MessageV>::empty(),
                                },
                            )
                            &&& final(state).client_repo.next_token == old(
                                state,
                            ).client_repo.next_token + 1
                            &&& final(state).message_repo == old(state).message_repo
                            &&& final(state).user_repo == old(state).user_repo
                            &&& final(state).notification_repo == old(state).notification_repo
                            &&& r matches HandshakeStep::Accepted { success, replay } && success@
                                is ChatInitSuccess && replay@.len() == spec_unreceived(
                                old(state).message_repo.view_msgs(),
                                old(state).user_repo.view_users(),
                                old(self).sender_id,
                            ).len() && (forall|i: int|
                                0 <= i < replay@.len() ==> replay_item_ok(
                                    #[trigger] replay@[i]@,
                                    spec_unreceived(
                                        old(state).message_repo.view_msgs(),
                                        old(state).user_repo.view_users(),
                                        old(self).sender_id,
                                    )[i],
                                    old(state).user_repo.view_users(),
                                ))
                        },
                    }
                }
            }),
    {
        match req {
            Some(Request::InitChat { addressee_nickname }) => {
                if str_eq(addressee_nickname.as_str(), self.sender_nickname.as_str()) {
                    self.state = SessionState::Closed;
                    HandshakeStep::Rejected {
                        failure: Response::ChatInitFailure {
                            error: String::from_str("You can't chat with yourself"),
                        },
                    }
                } else {
                    match state.user_repo.get_by_nickname(addressee_nickname.as_str()) {
                        None => {
                            self.state = SessionState::Closed;
                            HandshakeStep::Rejected {
                                failure: Response::ChatInitFailure {
                                    error: String::from_str("Addressee not found"),
                                },
                            }
                        },
                        Some(peer) => {
                            let token = state.client_repo.register(self.sender_id);
                            let replay = state.message_repo.get_unreceived_msgs(
                                self.sender_id,
                                &state.user_repo,
                            );
                            self.state = SessionState::Relaying { addressee_id: peer.id, token };
                            HandshakeStep::Accepted { success: Response::ChatInitSuccess, replay }
                        },
                    }
                }
            },
            _ => HandshakeStep::AwaitNext,
        }
    }

    /// Handles one inbound frame while relaying. A chat message is
    /// persisted (`received == false`, fresh id) and routed twice: an
    /// echo to the sender's own presence queue tagged `is_sender == true`
    /// and a delivery copy to the addressee's queue tagged `is_sender ==
    /// false`; an unregistered endpoint simply does not receive its copy,
    /// the stored record being the durable source of truth. A store
    /// failure is tolerated: the copies are still routed, carrying id 0
    /// (never a stored id). Any other frame changes nothing.
    pub fn ingress_frame(&self, state: &mut MyState, req: Option<Request>)
        requires
            self.state is Relaying,
            old(state).wf(),
        ensures
            final(state).wf(),
            final(state).user_repo == old(state).user_repo,
            final(state).notification_repo == old(state).notification_repo,
            final(state).client_repo.next_token == old(state).client_repo.next_token,
            !(req matches Some(q) && q@ is Msg) ==> *final(state) == *old(state),
            req matches Some(q) ==> (q@ matches ReqV::Msg { msg } ==> {
                let can_store = old(state).message_repo.next_id < u32::MAX && old(
                    state,
                ).message_repo.clock < u64::MAX;
                let mid: u32 = if can_store {
                    old(state).message_repo.next_id
                } else {
                    0
                };
                let echo = MessageV { id: mid, payload: msg, is_sender: true, sender: None };
                let copy = MessageV { id: mid, payload: msg, is_sender: false, sender: None };
                &&& final(state).message_repo.view_msgs() == if can_store {
                    old(state).message_repo.view_msgs().push(
                        StoredMessageV {
                            id: mid,
                            payload: msg,
                            sender_id: self.sender_id,
                            addressee_id: self.spec_addressee(),
                            timestamp: old(state).message_repo.clock,
                            received: false,
                        },
                    )
                } else {
                    old(state).message_repo.view_msgs()
                }
                &&& final(state).client_repo@ == route_effect(
                    route_effect(old(state).client_repo@, self.sender_id, echo),
                    self.spec_addressee(),
                    copy,
                )
            }),
    {
        match req {
            Some(Request::Msg { msg }) => {
                let addressee_id = match self.state {
                    SessionState::Relaying { addressee_id, .. } => addressee_id,
                    _ => vstd::pervasive::unreached(),
                };
                let mid = match state.message_repo.store_msg(
                    msg.clone(),
                    self.sender_id,
                    addressee_id,
                ) {
                    Some(id) => id,
                    None => 0,
                };
                let echo = Message { id: mid, payload: msg.clone(), is_sender: true, sender: None };
                let copy = Message { id: mid, payload: msg, is_sender: false, sender: None };
                let _ = state.client_repo.route(self.sender_id, echo);
                let _ = state.client_repo.route(addressee_id, copy);
            },
            _ => {},
        }
    }

    /// Reports the outcome of writing one delivered message to this
    /// session's socket. A failed write changes nothing (the connection
    /// loop tears the session down). A successful delivery of someone
    /// else's message marks the stored record received — whether it came
    /// live or from handshake replay. A successful write of the sender's
    /// own echo instead publishes a notification to the addressee's
    /// push stream, carrying this sender's nickname.
    pub fn delivery_written(&self, state: &mut MyState, m: &Message, write_ok: bool)
        requires
            self.state is Relaying,
            old(state).wf(),
        ensures
            final(state).wf(),
            final(state).client_repo == old(state).client_repo,
            final(state).user_repo == old(state).user_repo,
            !write_ok ==> *final(state) == *old(state),
            (write_ok && !m.is_sender) ==> {
                &&& final(state).message_repo.view_msgs() == spec_mark_received(
                    old(state).message_repo.view_msgs(),
                    m.id,
                )
                &&& final(state).message_repo.next_id == old(state).message_repo.next_id
                &&& final(state).message_repo.clock == old(state).message_repo.clock
                &&& final(state).notification_repo == old(state).notification_repo
            },
            (write_ok && m.is_sender) ==> {
                &&& final(state).notification_repo@ == publish_effect(
                    old(state).notification_repo@,
                    self.spec_addressee(),
                    NotificationV {
                        addressee_nickname: self.sender_nickname@,
                        message: m.payload@,
                    },
                )
                &&& final(state).message_repo == old(state).message_repo
            },
    {
        if write_ok {
            if m.is_sender {
                let addressee_id = match self.state {
                    SessionState::Relaying { addressee_id, .. } => addressee_id,
                    _ => vstd::pervasive::unreached(),
                };
                state.notification_repo.publish(
                    addressee_id,
                    Notification {
                        addressee_nickname: self.sender_nickname.clone(),
                        message: m.payload.clone(),
                    },
                );
            } else {
                state.message_repo.message_received(m.id);
            }
        }
    }

    /// Ends the session, whichever loop finished first: the state goes to
    /// `Closed` and the session's presence entry is removed — but only if
    /// it is still this session's own registration, so a stale session
    /// never unregisters the user's newer connection. A session that
    /// never left the handshake (or was already closed) registered
    /// nothing and removes nothing.
    pub fn teardown(&mut self, state: &mut MyState)
        requires
            old(state).wf(),
        ensures
            final(state).wf(),
            final(self).state is Closed,
            final(self).sender_id == old(self).sender_id,
            final(self).sender_nickname == old(self).sender_nickname,
            final(state).message_repo == old(state).message_repo,
            final(state).user_repo == old(state).user_repo,
            final(state).notification_repo == old(state).notification_repo,
            final(state).client_repo.next_token == old(state).client_repo.next_token,
            final(state).client_repo@ == if old(self).state is Relaying && old(
                state,
            ).client_repo@.contains_key(old(self).sender_id) && old(state).client_repo@[old(
                self,
            ).sender_id].token == old(self).spec_token() {
                old(state).client_repo@.remove(old(self).sender_id)
            } else {
                old(state).client_repo@
            },
            (old(self).state is Relaying && old(state).client_repo@.contains_key(old(
                self,
            ).sender_id) && old(state).client_repo@[old(self).sender_id].token == old(
                self,
            ).spec_token()) ==> !final(state).client_repo@.contains_key(old(self).sender_id),
    {
        match self.state {
            SessionState::Relaying { token, .. } => {
                state.client_repo.deregister(self.sender_id, token);
            },
            _ => {},
        }
        self.state = SessionState::Closed;
    }
}

/// Echo guarantee, over the registry model: routing a message pair the
/// way `ingress_frame` does appends exactly the sender-tagged echo to the
/// sender's queue and exactly the untagged copy to the addressee's
/// queue, each provided that endpoint is registered; an absent endpoint
/// stays absent and every other entry is untouched.
pub proof fn lemma_echo_guarantee(
    clients: Map<u32, ClientV>,
    s: u32,
    a: u32,
    echo: MessageV,
    copy: MessageV,
)
    requires
        s != a,
    ensures
        ({
            let routed = route_effect(route_effect(clients, s, echo), a, copy);
            &&& clients.contains_key(s) ==> routed[s].queue == clients[s].queue.push(echo)
            &&& clients.contains_key(a) ==> routed[a].queue == clients[a].queue.push(copy)
            &&& !clients.contains_key(s) ==> !routed.contains_key(s)
            &&& !clients.contains_key(a) ==> !routed.contains_key(a)
            &&& forall|k: u32|
                k != s && k != a ==> (routed.contains_key(k) <==> clients.contains_key(k))
                    && (routed.contains_key(k) ==> routed[k] == clients[k])
        }),
{
}

} // verus!
