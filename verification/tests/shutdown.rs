use loopback_auth::callback::{handle_request, SUCCESS_STATUS};
use loopback_auth::shutdown::ShutdownSlot;
use loopback_auth::tokens::TokenState;
use tokio::sync::oneshot;
use tokio::sync::oneshot::error::TryRecvError;

#[test]
fn empty_slot_has_nothing_to_signal() {
    let mut slot = ShutdownSlot::new();
    assert!(!slot.has_signal());
    assert!(!slot.take_and_signal());
    assert!(!slot.has_signal());
}

#[test]
fn installed_signal_is_fired_once() {
    let (tx, mut rx) = oneshot::channel::<()>();
    let mut slot = ShutdownSlot::new();
    slot.install(tx);
    assert!(slot.has_signal());
    assert_eq!(rx.try_recv(), Err(TryRecvError::Empty));
    assert!(slot.take_and_signal());
    assert_eq!(rx.try_recv(), Ok(()));
    assert!(!slot.has_signal());
    assert!(!slot.take_and_signal());
}

#[test]
fn signal_to_a_gone_receiver_is_no_error() {
    let (tx, rx) = oneshot::channel::<()>();
    drop(rx);
    let mut slot = ShutdownSlot::new();
    slot.install(tx);
    assert!(slot.take_and_signal());
    assert!(!slot.has_signal());
}

#[test]
fn install_replaces_what_the_slot_held() {
    let (first_tx, mut first_rx) = oneshot::channel::<()>();
    let (second_tx, mut second_rx) = oneshot::channel::<()>();
    let mut slot = ShutdownSlot::new();
    slot.install(first_tx);
    slot.install(second_tx);
    assert!(slot.take_and_signal());
    assert_eq!(second_rx.try_recv(), Ok(()));
    assert_eq!(first_rx.try_recv(), Err(TryRecvError::Closed));
    assert!(!slot.take_and_signal());
}

#[test]
fn callback_records_answers_and_signals() {
    let (tx, mut rx) = oneshot::channel::<()>();
    let mut slot = ShutdownSlot::new();
    slot.install(tx);
    let mut tokens = TokenState::new();
    let reply = handle_request(Some("user_id=u1&access_token=t1"), &mut tokens, &mut slot);
    assert_eq!(reply.status, 200);
    assert_eq!(reply.status, SUCCESS_STATUS);
    assert_eq!(
        reply.body,
        "You have successfully signed into Yogu and can close this at any time."
    );
    assert_eq!(tokens.user_id.as_deref(), Some("u1"));
    assert_eq!(tokens.access_token.as_deref(), Some("t1"));
    assert_eq!(rx.try_recv(), Ok(()));
    assert!(!slot.has_signal());
}

#[test]
fn callback_without_query_still_answers_and_signals() {
    let (tx, mut rx) = oneshot::channel::<()>();
    let mut slot = ShutdownSlot::new();
    slot.install(tx);
    let mut tokens = TokenState::new();
    let reply = handle_request(None, &mut tokens, &mut slot);
    assert_eq!(reply.status, 200);
    assert_eq!(
        reply.body,
        "You have successfully signed into Yogu and can close this at any time."
    );
    assert!(!tokens.is_complete());
    assert_eq!(tokens.user_id, None);
    assert_eq!(rx.try_recv(), Ok(()));
}

#[test]
fn callback_with_useless_query_answers_the_same() {
    let mut slot = ShutdownSlot::new();
    let mut tokens = TokenState::new();
    let reply = handle_request(Some("error=denied&user_id"), &mut tokens, &mut slot);
    assert_eq!(reply.status, 200);
    assert_eq!(
        reply.body,
        "You have successfully signed into Yogu and can close this at any time."
    );
    assert_eq!(tokens.user_id, None);
    assert_eq!(tokens.access_token, None);
    assert!(!slot.has_signal());
}

#[test]
fn second_callback_overwrites_the_first() {
    let mut slot = ShutdownSlot::new();
    let mut tokens = TokenState::new();
    handle_request(Some("user_id=one&access_token=t"), &mut tokens, &mut slot);
    handle_request(Some("user_id=two"), &mut tokens, &mut slot);
    assert_eq!(tokens.user_id.as_deref(), Some("two"));
    assert_eq!(tokens.access_token.as_deref(), Some("t"));
}
