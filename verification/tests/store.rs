use chat_relay::digest::group_unreceived;
use chat_relay::messages::{Message, MessageRepo};
use chat_relay::users::UserRepo;

fn directory_with(nicks: &[&str]) -> UserRepo {
    let mut users = UserRepo::new();
    for n in nicks {
        users.store(String::from(*n), String::from("hash")).expect("fresh nickname");
    }
    users
}

#[test]
fn store_assigns_ids_and_timestamps() {
    let mut repo = MessageRepo::new();
    let a = repo.store_msg(String::from("one"), 1, 2).unwrap();
    let b = repo.store_msg(String::from("two"), 2, 1).unwrap();
    let c = repo.store_msg(String::from("three"), 1, 2).unwrap();
    assert_eq!((a, b, c), (1, 2, 3));
    assert!(repo.msgs.iter().all(|m| !m.received));
    assert!(repo.msgs[0].timestamp < repo.msgs[1].timestamp);
    assert!(repo.msgs[1].timestamp < repo.msgs[2].timestamp);
}

#[test]
fn message_received_is_idempotent_and_targeted() {
    let mut repo = MessageRepo::new();
    let a = repo.store_msg(String::from("one"), 1, 2).unwrap();
    let b = repo.store_msg(String::from("two"), 1, 2).unwrap();
    repo.message_received(a);
    assert!(repo.msgs[0].received);
    assert!(!repo.msgs[1].received);
    repo.message_received(a);
    assert!(repo.msgs[0].received);
    assert!(!repo.msgs[1].received);
    // An id never assigned changes nothing.
    repo.message_received(999);
    assert!(repo.msgs[0].received);
    assert!(!repo.msgs[1].received);
    repo.message_received(b);
    assert!(repo.msgs[1].received);
}

#[test]
fn conversation_is_ordered_and_direction_blind() {
    let mut repo = MessageRepo::new();
    repo.store_msg(String::from("a to b"), 1, 2).unwrap();
    repo.store_msg(String::from("a to c"), 1, 3).unwrap();
    repo.store_msg(String::from("b to a"), 2, 1).unwrap();
    repo.store_msg(String::from("a to b again"), 1, 2).unwrap();

    let from_a = repo.get_messages(1, 2);
    let texts: Vec<&str> = from_a.iter().map(|m| m.payload.as_str()).collect();
    assert_eq!(texts, vec!["a to b", "b to a", "a to b again"]);
    let tags: Vec<bool> = from_a.iter().map(|m| m.is_sender).collect();
    assert_eq!(tags, vec![true, false, true]);

    // The same pair queried from the other side: same messages, same
    // order, mirrored tags.
    let from_b = repo.get_messages(2, 1);
    let texts: Vec<&str> = from_b.iter().map(|m| m.payload.as_str()).collect();
    assert_eq!(texts, vec!["a to b", "b to a", "a to b again"]);
    let tags: Vec<bool> = from_b.iter().map(|m| m.is_sender).collect();
    assert_eq!(tags, vec![false, true, false]);
}

#[test]
fn unreceived_filters_and_joins_nicknames() {
    let users = directory_with(&["alice", "bob", "carol"]);
    let mut repo = MessageRepo::new();
    let first = repo.store_msg(String::from("from alice"), 1, 2).unwrap();
    repo.store_msg(String::from("from carol"), 3, 2).unwrap();
    repo.store_msg(String::from("other addressee"), 1, 3).unwrap();
    repo.store_msg(String::from("unknown sender"), 9, 2).unwrap();
    repo.message_received(first);

    let pending = repo.get_unreceived_msgs(2, &users);
    // The already-received record, the one to user 3, and the one whose
    // sender has no account are all left out.
    assert_eq!(pending.len(), 1);
    assert_eq!(pending[0].payload, "from carol");
    assert_eq!(pending[0].sender.as_deref(), Some("carol"));
    assert!(!pending[0].is_sender);
}

#[test]
fn unreceived_keeps_storage_order() {
    let users = directory_with(&["alice", "bob"]);
    let mut repo = MessageRepo::new();
    repo.store_msg(String::from("first"), 1, 2).unwrap();
    repo.store_msg(String::from("second"), 1, 2).unwrap();
    repo.store_msg(String::from("third"), 1, 2).unwrap();
    let pending = repo.get_unreceived_msgs(2, &users);
    let texts: Vec<&str> = pending.iter().map(|m| m.payload.as_str()).collect();
    assert_eq!(texts, vec!["first", "second", "third"]);
}

#[test]
fn group_unreceived_by_first_appearance() {
    let mk = |nick: &str, text: &str| Message {
        id: 0,
        payload: String::from(text),
        is_sender: false,
        sender: Some(String::from(nick)),
    };
    let msgs = vec![
        mk("bob", "one"),
        mk("carol", "two"),
        mk("bob", "three"),
        mk("bob", "four"),
        mk("carol", "five"),
    ];
    let groups = group_unreceived(&msgs);
    assert_eq!(groups.len(), 2);
    assert_eq!(groups[0].nickname, "bob");
    assert_eq!(groups[0].messages, vec!["one", "three", "four"]);
    assert_eq!(groups[1].nickname, "carol");
    assert_eq!(groups[1].messages, vec!["two", "five"]);
}

#[test]
fn group_unreceived_empty() {
    let groups = group_unreceived(&Vec::new());
    assert!(groups.is_empty());
}

#[test]
fn user_directory_assigns_ids_and_keeps_nicknames_unique() {
    let mut users = UserRepo::new();
    assert!(users.store(String::from("alice"), String::from("h1")).is_ok());
    assert!(users.store(String::from("bob"), String::from("h2")).is_ok());
    // A taken nickname is refused and nothing changes.
    assert!(users.store(String::from("alice"), String::from("h3")).is_err());
    assert_eq!(users.users.len(), 2);

    let alice = users.get_by_nickname("alice").expect("alice exists");
    assert_eq!(alice.id, 1);
    assert_eq!(alice.password_hash, "h1");
    let bob = users.get_by_nickname("bob").expect("bob exists");
    assert_eq!(bob.id, 2);
    assert!(users.get_by_nickname("carol").is_none());
    assert_eq!(users.nickname_of(2).map(|s| s.as_str()), Some("bob"));
    assert!(users.nickname_of(7).is_none());
}
