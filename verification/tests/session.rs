use chat_relay::messages::Message;
use chat_relay::protocol::{Request, Response};
use chat_relay::session::{HandshakeStep, MyState, Session, SessionState};

/// A relay with accounts alice (id 1) and bob (id 2).
fn relay_with_alice_and_bob() -> MyState {
    let mut state = MyState::new();
    state.user_repo.store(String::from("alice"), String::from("h1")).unwrap();
    state.user_repo.store(String::from("bob"), String::from("h2")).unwrap();
    state
}

fn init_chat(nick: &str) -> Option<Request> {
    Some(Request::InitChat { addressee_nickname: String::from(nick) })
}

fn msg(text: &str) -> Option<Request> {
    Some(Request::Msg { msg: String::from(text) })
}

/// Completes a handshake that is expected to succeed, writing every
/// replayed frame successfully, and hands back what the client read.
fn complete_handshake(session: &mut Session, state: &mut MyState) -> Vec<Message> {
    match session.handshake_frame(state, init_chat_for(session, state)) {
        HandshakeStep::Accepted { success, replay } => {
            assert_eq!(success.as_json_str(), "{\"type\":\"chat_init_success\"}");
            for m in replay.iter() {
                session.delivery_written(state, m, true);
            }
            replay
        },
        _ => panic!("handshake should have been accepted"),
    }
}

/// The peer each test session talks to: alice chats with bob and bob
/// with alice.
fn init_chat_for(session: &Session, _state: &MyState) -> Option<Request> {
    if session.sender_id == 1 {
        init_chat("bob")
    } else {
        init_chat("alice")
    }
}

#[test]
fn self_chat_is_rejected_without_registration() {
    let mut state = relay_with_alice_and_bob();
    let mut session = Session::new(1, String::from("alice"));
    match session.handshake_frame(&mut state, init_chat("alice")) {
        HandshakeStep::Rejected { failure } => {
            assert_eq!(
                failure.as_json_str(),
                "{\"type\":\"chat_init_failure\",\"error\":\"You can't chat with yourself\"}"
            );
        },
        _ => panic!("self chat must be rejected"),
    }
    assert!(matches!(session.state, SessionState::Closed));
    assert!(state.client_repo.entries.is_empty());
}

#[test]
fn unknown_addressee_is_rejected_without_registration() {
    let mut state = relay_with_alice_and_bob();
    let mut session = Session::new(1, String::from("alice"));
    match session.handshake_frame(&mut state, init_chat("nobody")) {
        HandshakeStep::Rejected { failure } => {
            assert_eq!(
                failure.as_json_str(),
                "{\"type\":\"chat_init_failure\",\"error\":\"Addressee not found\"}"
            );
        },
        _ => panic!("an unknown addressee must be rejected"),
    }
    assert!(matches!(session.state, SessionState::Closed));
    assert!(state.client_repo.entries.is_empty());
}

#[test]
fn handshake_waits_through_invalid_frames() {
    let mut state = relay_with_alice_and_bob();
    let mut session = Session::new(1, String::from("alice"));
    // A chat message before the handshake, and an undecodable frame:
    // logged and skipped, the connection stays open.
    assert!(matches!(
        session.handshake_frame(&mut state, msg("too early")),
        HandshakeStep::AwaitNext
    ));
    assert!(matches!(session.handshake_frame(&mut state, None), HandshakeStep::AwaitNext));
    assert!(matches!(session.state, SessionState::Handshaking));
    // The next valid frame still succeeds.
    match session.handshake_frame(&mut state, init_chat("bob")) {
        HandshakeStep::Accepted { .. } => {},
        _ => panic!("the retried handshake must succeed"),
    }
}

#[test]
fn echo_and_delivery_when_both_connected() {
    let mut state = relay_with_alice_and_bob();
    let mut alice = Session::new(1, String::from("alice"));
    let mut bob = Session::new(2, String::from("bob"));
    complete_handshake(&mut alice, &mut state);
    complete_handshake(&mut bob, &mut state);

    alice.ingress_frame(&mut state, msg("hi"));

    let alice_token = match alice.state {
        SessionState::Relaying { token, .. } => token,
        _ => panic!("alice must be relaying"),
    };
    let bob_token = match bob.state {
        SessionState::Relaying { token, .. } => token,
        _ => panic!("bob must be relaying"),
    };

    // Alice reads her echo, tagged is_sender = true.
    let echo = state.client_repo.take_next(1, alice_token).expect("alice gets her echo");
    assert_eq!(echo.payload, "hi");
    assert!(echo.is_sender);
    assert_eq!(
        Response::Msg { msg: echo.payload.clone(), is_sender: echo.is_sender }.as_json_str(),
        "{\"type\":\"msg\",\"msg\":\"hi\",\"is_sender\":true}"
    );

    // Bob reads the delivery copy, tagged is_sender = false.
    let copy = state.client_repo.take_next(2, bob_token).expect("bob gets the message");
    assert_eq!(copy.payload, "hi");
    assert!(!copy.is_sender);

    // Bob's session confirms the write: the record is marked received.
    bob.delivery_written(&mut state, &copy, true);
    assert!(state.message_repo.msgs[0].received);
}

#[test]
fn echo_confirmation_publishes_notification() {
    let mut state = relay_with_alice_and_bob();
    let mut alice = Session::new(1, String::from("alice"));
    complete_handshake(&mut alice, &mut state);
    state.notification_repo.subscribe(2);

    alice.ingress_frame(&mut state, msg("hi"));
    let alice_token = match alice.state {
        SessionState::Relaying { token, .. } => token,
        _ => panic!("alice must be relaying"),
    };
    let echo = state.client_repo.take_next(1, alice_token).expect("alice gets her echo");
    alice.delivery_written(&mut state, &echo, true);

    let n = state.notification_repo.take_next(2).expect("bob's stream got the event");
    assert_eq!(n.addressee_nickname, "alice");
    assert_eq!(n.message, "hi");
    assert_eq!(n.as_json_str(), "{\"addressee_nickname\":\"alice\",\"message\":\"hi\"}");

    // A failed echo write publishes nothing.
    alice.ingress_frame(&mut state, msg("again"));
    let echo = state.client_repo.take_next(1, alice_token).expect("second echo");
    alice.delivery_written(&mut state, &echo, false);
    assert!(state.notification_repo.take_next(2).is_none());
}

#[test]
fn notifications_without_subscription_are_dropped() {
    let mut state = relay_with_alice_and_bob();
    let mut alice = Session::new(1, String::from("alice"));
    complete_handshake(&mut alice, &mut state);
    alice.ingress_frame(&mut state, msg("hi"));
    let alice_token = match alice.state {
        SessionState::Relaying { token, .. } => token,
        _ => panic!("alice must be relaying"),
    };
    let echo = state.client_repo.take_next(1, alice_token).expect("echo");
    // Bob never subscribed: the publish is silently dropped.
    alice.delivery_written(&mut state, &echo, true);
    assert!(state.notification_repo.notifications.is_empty());

    // Subscribing later starts from an empty stream.
    state.notification_repo.subscribe(2);
    assert!(state.notification_repo.take_next(2).is_none());
}

#[test]
fn offline_message_is_stored_and_replayed_once() {
    let mut state = relay_with_alice_and_bob();
    let mut alice = Session::new(1, String::from("alice"));
    complete_handshake(&mut alice, &mut state);

    // Bob has no session: the delivery copy is unroutable, the record
    // stays stored and unreceived.
    alice.ingress_frame(&mut state, msg("hi"));
    assert_eq!(state.message_repo.msgs.len(), 1);
    assert!(!state.message_repo.msgs[0].received);

    // The message is retrievable as the conversation between the two.
    let conv = state.message_repo.get_messages(2, 1);
    assert_eq!(conv.len(), 1);
    assert_eq!(conv[0].payload, "hi");

    // Bob's next handshake replays it and, once written, marks it
    // received.
    let mut bob = Session::new(2, String::from("bob"));
    let replay = complete_handshake(&mut bob, &mut state);
    assert_eq!(replay.len(), 1);
    assert_eq!(replay[0].payload, "hi");
    assert_eq!(replay[0].sender.as_deref(), Some("alice"));
    assert!(!replay[0].is_sender);
    assert!(state.message_repo.msgs[0].received);

    // A second handshake replays nothing: the transition happened once.
    let mut bob_again = Session::new(2, String::from("bob"));
    let replay = complete_handshake(&mut bob_again, &mut state);
    assert!(replay.is_empty());
}

#[test]
fn teardown_removes_presence_either_way() {
    let mut state = relay_with_alice_and_bob();

    // Ingress side closes first.
    let mut alice = Session::new(1, String::from("alice"));
    complete_handshake(&mut alice, &mut state);
    alice.teardown(&mut state);
    assert!(matches!(alice.state, SessionState::Closed));
    assert!(state.client_repo.entries.is_empty());

    // Delivery side closes first: same teardown, same result.
    let mut alice = Session::new(1, String::from("alice"));
    complete_handshake(&mut alice, &mut state);
    let mut bob = Session::new(2, String::from("bob"));
    complete_handshake(&mut bob, &mut state);
    bob.teardown(&mut state);
    assert_eq!(state.client_repo.entries.len(), 1);
    assert_eq!(state.client_repo.entries[0].user_id, 1);

    // Routing to a torn-down session reports offline; the message is
    // still persisted.
    alice.ingress_frame(&mut state, msg("are you there?"));
    assert!(!state.message_repo.msgs.last().unwrap().received);
    alice.teardown(&mut state);
    assert!(state.client_repo.entries.is_empty());
}

#[test]
fn stale_session_cannot_unregister_its_successor() {
    let mut state = relay_with_alice_and_bob();
    let mut first = Session::new(1, String::from("alice"));
    complete_handshake(&mut first, &mut state);
    // Alice reconnects: the new session overwrites the presence entry.
    let mut second = Session::new(1, String::from("alice"));
    complete_handshake(&mut second, &mut state);

    let second_token = match second.state {
        SessionState::Relaying { token, .. } => token,
        _ => panic!("second session must be relaying"),
    };

    // The first session's delivery loop draws nothing any more.
    let first_token = match first.state {
        SessionState::Relaying { token, .. } => token,
        _ => panic!("first session must be relaying"),
    };
    assert!(state.client_repo.take_next(1, first_token).is_none());

    // Its eventual teardown must not remove the newer registration.
    first.teardown(&mut state);
    assert_eq!(state.client_repo.entries.len(), 1);
    assert_eq!(state.client_repo.entries[0].client.token, second_token);
}

#[test]
fn relaying_ignores_non_message_frames() {
    let mut state = relay_with_alice_and_bob();
    let mut alice = Session::new(1, String::from("alice"));
    complete_handshake(&mut alice, &mut state);
    alice.ingress_frame(&mut state, None);
    alice.ingress_frame(&mut state, init_chat("bob"));
    assert!(state.message_repo.msgs.is_empty());
}

#[test]
fn example_scenario_alice_and_bob() {
    // Alice (id 1) and bob (id 2) both authenticate; alice opens a chat
    // with bob and sends "hi".
    let mut state = relay_with_alice_and_bob();
    let mut alice = Session::new(1, String::from("alice"));

    match alice.handshake_frame(
        &mut state,
        Request::from("{\"type\": \"init_chat\", \"addressee_nickname\": \"bob\"}"),
    ) {
        HandshakeStep::Accepted { success, replay } => {
            assert_eq!(success.as_json_str(), "{\"type\":\"chat_init_success\"}");
            assert!(replay.is_empty());
        },
        _ => panic!("alice's handshake must succeed"),
    }

    alice.ingress_frame(&mut state, Request::from("{\"type\": \"msg\", \"msg\": \"hi\"}"));

    // Alice receives her own message tagged is_sender = true.
    let alice_token = match alice.state {
        SessionState::Relaying { token, .. } => token,
        _ => panic!("alice must be relaying"),
    };
    let echo = state.client_repo.take_next(1, alice_token).expect("echo for alice");
    assert_eq!(
        Response::Msg { msg: echo.payload.clone(), is_sender: echo.is_sender }.as_json_str(),
        "{\"type\":\"msg\",\"msg\":\"hi\",\"is_sender\":true}"
    );

    // Bob is not connected: the message persists unreceived and is
    // replayed on his next successful handshake.
    assert!(!state.message_repo.msgs[0].received);
    let mut bob = Session::new(2, String::from("bob"));
    match bob.handshake_frame(&mut state, init_chat("alice")) {
        HandshakeStep::Accepted { replay, .. } => {
            assert_eq!(replay.len(), 1);
            assert_eq!(
                Response::Msg {
                    msg: replay[0].payload.clone(),
                    is_sender: replay[0].is_sender,
                }
                .as_json_str(),
                "{\"type\":\"msg\",\"msg\":\"hi\",\"is_sender\":false}"
            );
            bob.delivery_written(&mut state, &replay[0], true);
        },
        _ => panic!("bob's handshake must succeed"),
    }
    assert!(state.message_repo.msgs[0].received);
}
