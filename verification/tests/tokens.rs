use loopback_auth::tokens::TokenState;

fn read(queries: &[&str]) -> TokenState {
    let mut tokens = TokenState::new();
    for query in queries {
        tokens.absorb_query(query);
    }
    tokens
}

#[test]
fn new_record_is_empty() {
    let tokens = TokenState::new();
    assert_eq!(tokens.user_id, None);
    assert_eq!(tokens.access_token, None);
    assert!(!tokens.is_complete());
    assert!(tokens.credentials().is_none());
}

#[test]
fn both_keys_are_captured() {
    let tokens = read(&["user_id=u1&access_token=t1"]);
    assert_eq!(tokens.user_id.as_deref(), Some("u1"));
    assert_eq!(tokens.access_token.as_deref(), Some("t1"));
    assert!(tokens.is_complete());
}

#[test]
fn key_order_does_not_matter() {
    let tokens = read(&["access_token=B&user_id=A"]);
    assert_eq!(tokens.user_id.as_deref(), Some("A"));
    assert_eq!(tokens.access_token.as_deref(), Some("B"));
}

#[test]
fn unrelated_and_malformed_pairs_are_ignored() {
    let tokens = read(&["foo=bar&access_token=B&=x&a=b=c&&novalue&user_id=A&state=9&user_id"]);
    assert_eq!(tokens.user_id.as_deref(), Some("A"));
    assert_eq!(tokens.access_token.as_deref(), Some("B"));
}

#[test]
fn pair_with_two_equal_signs_is_malformed() {
    let tokens = read(&["user_id=a=b&access_token==t"]);
    assert_eq!(tokens.user_id, None);
    assert_eq!(tokens.access_token, None);
}

#[test]
fn key_without_equal_sign_is_malformed() {
    let tokens = read(&["user_id&access_token"]);
    assert_eq!(tokens.user_id, None);
    assert_eq!(tokens.access_token, None);
}

#[test]
fn empty_value_counts_as_present() {
    let tokens = read(&["user_id=&access_token="]);
    assert_eq!(tokens.user_id.as_deref(), Some(""));
    assert_eq!(tokens.access_token.as_deref(), Some(""));
    assert!(tokens.is_complete());
}

#[test]
fn empty_query_changes_nothing() {
    let mut tokens = read(&["user_id=A"]);
    tokens.absorb_query("");
    assert_eq!(tokens.user_id.as_deref(), Some("A"));
    assert_eq!(tokens.access_token, None);
}

#[test]
fn keys_are_matched_exactly() {
    let tokens = read(&["User_Id=A&access_token =B& user_id=C&user_idx=D&ser_id=E"]);
    assert_eq!(tokens.user_id, None);
    assert_eq!(tokens.access_token, None);
}

#[test]
fn repeated_key_keeps_the_last_value() {
    let tokens = read(&["user_id=first&access_token=t&user_id=second"]);
    assert_eq!(tokens.user_id.as_deref(), Some("second"));
    assert_eq!(tokens.access_token.as_deref(), Some("t"));
}

#[test]
fn values_may_hold_any_characters_but_the_separators() {
    let tokens = read(&["user_id=\u{65e5}\u{672c}\u{8a9e} x?/%41&access_token=t\u{f6}k\u{1f600}"]);
    assert_eq!(tokens.user_id.as_deref(), Some("\u{65e5}\u{672c}\u{8a9e} x?/%41"));
    assert_eq!(tokens.access_token.as_deref(), Some("t\u{f6}k\u{1f600}"));
}

#[test]
fn one_key_alone_never_completes() {
    let mut tokens = TokenState::new();
    for round in 0..50 {
        tokens.absorb_query(&format!("user_id=u{}&other=1", round));
        assert!(!tokens.is_complete());
        assert!(tokens.credentials().is_none());
    }
    assert_eq!(tokens.user_id.as_deref(), Some("u49"));
    let mut tokens = TokenState::new();
    for _ in 0..50 {
        tokens.absorb_query("access_token=t");
        assert!(!tokens.is_complete());
    }
}

#[test]
fn keys_may_arrive_in_separate_callbacks() {
    let tokens = read(&["user_id=A", "nothing", "access_token=B"]);
    assert!(tokens.is_complete());
    let info = tokens.credentials().unwrap();
    assert_eq!(info.user_id, "A");
    assert_eq!(info.access_token, "B");
}

#[test]
fn later_callback_overwrites_whole_field() {
    let first_then_second = read(&["user_id=alpha&access_token=one", "user_id=b"]);
    assert_eq!(first_then_second.user_id.as_deref(), Some("b"));
    assert_eq!(first_then_second.access_token.as_deref(), Some("one"));
    let second_then_first = read(&["user_id=b", "user_id=alpha&access_token=one"]);
    assert_eq!(second_then_first.user_id.as_deref(), Some("alpha"));
}

#[test]
fn a_captured_field_is_never_cleared() {
    let mut tokens = read(&["user_id=A&access_token=B"]);
    for query in ["", "user_id", "x=y", "&&&", "user_id=a=b", "==", "access_token"] {
        tokens.absorb_query(query);
        assert_eq!(tokens.user_id.as_deref(), Some("A"));
        assert_eq!(tokens.access_token.as_deref(), Some("B"));
    }
}

#[test]
fn credentials_copy_the_record() {
    let tokens = read(&["user_id=u1&access_token=t1"]);
    let info = tokens.credentials().unwrap();
    assert_eq!(info.user_id, "u1");
    assert_eq!(info.access_token, "t1");
    assert_eq!(tokens.user_id.as_deref(), Some("u1"));
}

#[test]
fn snapshot_equals_the_record() {
    let tokens = read(&["access_token=t1"]);
    let copy = tokens.snapshot();
    assert_eq!(copy.user_id, None);
    assert_eq!(copy.access_token.as_deref(), Some("t1"));
}
