use chat_relay::{menu_choice, take_nick_and_pass, Action};

#[test]
fn credentials_are_paired_in_order() {
    let (nick, pass) = take_nick_and_pass(String::from("alice"), String::from("secret"));
    assert_eq!(nick, "alice");
    assert_eq!(pass, "secret");
}

#[test]
fn menu_options_resolve() {
    assert!(matches!(menu_choice("1"), Some(Action::Login)));
    assert!(matches!(menu_choice("2"), Some(Action::Signup)));
    assert!(menu_choice("3").is_none());
    assert!(menu_choice("").is_none());
    assert!(menu_choice("one").is_none());
}
