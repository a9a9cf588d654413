use newsletter::domain::{FormData, NewSubscriber, SubscriberEmail, SubscriberName, SubscriptionToken};
use newsletter::store::{Status, StorageError, SubscriberStore};
use newsletter::workflow::{
    confirm, confirmation_link, finish_subscription, subscribe, subscribe_with, ConfirmError, ConfirmOutcome,
    Parameters, SubscribeError,
};

fn form(name: &str, email: &str) -> FormData {
    FormData { name: name.to_string(), email: email.to_string() }
}

fn params(token: &str) -> Parameters {
    Parameters { subscription_token: token.to_string() }
}

fn token(s: &str) -> SubscriptionToken {
    SubscriptionToken::parse(s.to_string()).ok().unwrap()
}

#[test]
fn subscribe_then_confirm_le_guin() {
    let mut store = SubscriberStore::new();
    let t = subscribe(&mut store, form("le guin", "ursula_le_guin@gmail.com")).ok().unwrap();
    assert_eq!(t.as_str().chars().count(), 25);
    assert!(t.as_str().chars().all(|c| c.is_ascii_alphanumeric()));
    assert_eq!(store.subscriber_count(), 1);
    assert_eq!(store.token_count(), 1);
    assert_eq!(store.status_of("ursula_le_guin@gmail.com"), Some(Status::PendingConfirmation));
    let r = confirm(&mut store, params(t.as_str())).ok().unwrap();
    assert_eq!(r, ConfirmOutcome::Confirmed);
    assert_eq!(r.status_code(), 200);
    assert_eq!(store.status_of("ursula_le_guin@gmail.com"), Some(Status::Confirmed));
    assert_eq!(store.subscriber_count(), 1);
}

#[test]
fn subscribing_twice_keeps_only_second_token() {
    let mut store = SubscriberStore::new();
    let t1 = subscribe(&mut store, form("le guin", "ursula_le_guin@gmail.com")).ok().unwrap();
    let t2 = subscribe(&mut store, form("ursula", "ursula_le_guin@gmail.com")).ok().unwrap();
    assert_ne!(t1.as_str(), t2.as_str());
    assert_eq!(store.subscriber_count(), 1);
    assert_eq!(store.token_count(), 1);
    assert_eq!(store.resolve_token(&t1), None);
    assert!(store.resolve_token(&t2).is_some());
    let r1 = confirm(&mut store, params(t1.as_str())).ok().unwrap();
    assert_eq!(r1, ConfirmOutcome::Unauthorized);
    assert_eq!(r1.status_code(), 401);
    assert_eq!(store.status_of("ursula_le_guin@gmail.com"), Some(Status::PendingConfirmation));
    let r2 = confirm(&mut store, params(t2.as_str())).ok().unwrap();
    assert_eq!(r2, ConfirmOutcome::Confirmed);
    assert_eq!(store.status_of("ursula_le_guin@gmail.com"), Some(Status::Confirmed));
}

#[test]
fn resubscribing_keeps_first_row_and_confirmed_status() {
    let mut store = SubscriberStore::new();
    let f = form("le guin", "ursula_le_guin@gmail.com");
    let t1 = subscribe_with(&mut store, f, 7, 100, token("aaaa")).ok().unwrap();
    confirm(&mut store, params(t1.as_str())).ok().unwrap();
    let f2 = form("someone else", "ursula_le_guin@gmail.com");
    subscribe_with(&mut store, f2, 8, 200, token("bbbb")).ok().unwrap();
    assert_eq!(store.subscriber_count(), 1);
    assert_eq!(store.status_of("ursula_le_guin@gmail.com"), Some(Status::Confirmed));
    assert_eq!(store.resolve_token(&token("bbbb")), Some(7));
    assert_eq!(store.resolve_token(&token("aaaa")), None);
}

#[test]
fn unknown_token_is_unauthorized() {
    let mut store = SubscriberStore::new();
    subscribe(&mut store, form("le guin", "ursula_le_guin@gmail.com")).ok().unwrap();
    let r = confirm(&mut store, params("abcdefghijklmnopqrstuvwxy")).ok().unwrap();
    assert_eq!(r, ConfirmOutcome::Unauthorized);
    assert_eq!(store.status_of("ursula_le_guin@gmail.com"), Some(Status::PendingConfirmation));
}

#[test]
fn malformed_token_is_rejected() {
    let mut store = SubscriberStore::new();
    subscribe_with(&mut store, form("le guin", "ursula_le_guin@gmail.com"), 1, 0, token("abc23")).ok().unwrap();
    match confirm(&mut store, params("abc!23")) {
        Err(e) => {
            assert_eq!(e.status_code(), 400);
            assert!(matches!(e, ConfirmError::ValidationError(_)));
        },
        Ok(_) => panic!("a malformed token was accepted"),
    }
    assert_eq!(store.status_of("ursula_le_guin@gmail.com"), Some(Status::PendingConfirmation));
}

#[test]
fn confirming_twice_succeeds_twice() {
    let mut store = SubscriberStore::new();
    let t = subscribe(&mut store, form("le guin", "ursula_le_guin@gmail.com")).ok().unwrap();
    assert_eq!(confirm(&mut store, params(t.as_str())).ok().unwrap(), ConfirmOutcome::Confirmed);
    assert_eq!(confirm(&mut store, params(t.as_str())).ok().unwrap(), ConfirmOutcome::Confirmed);
    assert_eq!(store.status_of("ursula_le_guin@gmail.com"), Some(Status::Confirmed));
    assert_eq!(store.subscriber_count(), 1);
    assert_eq!(store.token_count(), 1);
}

#[test]
fn invalid_form_writes_nothing() {
    let mut store = SubscriberStore::new();
    let e = subscribe(&mut store, form("", "ursula_le_guin@gmail.com")).err().unwrap();
    assert!(matches!(e, SubscribeError::ValidationError(_)));
    assert_eq!(e.status_code(), 400);
    let e = subscribe(&mut store, form("le guin", "definitely-not-an-email")).err().unwrap();
    assert!(matches!(e, SubscribeError::ValidationError(_)));
    assert_eq!(store.subscriber_count(), 0);
    assert_eq!(store.token_count(), 0);
}

#[test]
fn duplicate_identifier_rolls_back() {
    let mut store = SubscriberStore::new();
    subscribe_with(&mut store, form("a", "a@example.com"), 5, 0, token("tok1")).ok().unwrap();
    let e = subscribe_with(&mut store, form("b", "b@example.com"), 5, 0, token("tok2")).err().unwrap();
    assert!(matches!(e, SubscribeError::StorageError(StorageError::DuplicateId)));
    assert_eq!(e.status_code(), 500);
    assert_eq!(store.subscriber_count(), 1);
    assert_eq!(store.status_of("b@example.com"), None);
}

#[test]
fn duplicate_token_rolls_back_the_new_subscriber() {
    let mut store = SubscriberStore::new();
    subscribe_with(&mut store, form("a", "a@example.com"), 5, 0, token("tok1")).ok().unwrap();
    let e = subscribe_with(&mut store, form("b", "b@example.com"), 6, 0, token("tok1")).err().unwrap();
    assert!(matches!(e, SubscribeError::StorageError(StorageError::DuplicateToken)));
    assert_eq!(store.subscriber_count(), 1);
    assert_eq!(store.token_count(), 1);
    assert_eq!(store.status_of("b@example.com"), None);
    assert_eq!(store.resolve_token(&token("tok1")), Some(5));
}

#[test]
fn store_operations_directly() {
    let mut store = SubscriberStore::new();
    let n = NewSubscriber::parse_form(form("le guin", "ursula_le_guin@gmail.com")).ok().unwrap();
    assert_eq!(store.insert_subscriber(&n, 11, 0), Ok(11));
    assert_eq!(store.insert_subscriber(&n, 12, 0), Ok(11));
    assert_eq!(store.subscriber_count(), 1);
    assert_eq!(store.store_token(99, &token("x1")), Err(StorageError::UnknownSubscriber));
    assert_eq!(store.store_token(11, &token("x1")), Ok(()));
    assert_eq!(store.store_token(11, &token("x2")), Ok(()));
    assert_eq!(store.token_count(), 1);
    assert_eq!(store.resolve_token(&token("x2")), Some(11));
    store.confirm_subscriber(42);
    assert_eq!(store.status_of("ursula_le_guin@gmail.com"), Some(Status::PendingConfirmation));
    store.confirm_subscriber(11);
    assert_eq!(store.status_of("ursula_le_guin@gmail.com"), Some(Status::Confirmed));
    assert_eq!(Status::Confirmed.as_str(), "confirmed");
    assert_eq!(Status::PendingConfirmation.as_str(), "pending_confirmation");
}

#[test]
fn confirmation_link_embeds_token() {
    let t = token("abc123");
    assert_eq!(
        confirmation_link("http://127.0.0.1", &t),
        "http://127.0.0.1/subscriptions/confirm?subscription_token=abc123"
    );
}

#[test]
fn email_failure_is_its_own_error() {
    assert!(finish_subscription(Ok(())).is_ok());
    let e = finish_subscription(Err("timeout".to_string())).err().unwrap();
    assert_eq!(e.status_code(), 500);
    match e {
        SubscribeError::EmailError(m) => assert_eq!(m, "timeout"),
        _ => panic!("wrong error"),
    }
}

#[test]
fn name_rules() {
    assert!(SubscriberName::parse("le guin".to_string()).is_ok());
    assert_eq!(SubscriberName::parse(" le guin ".to_string()).ok().unwrap().as_str(), " le guin ");
    assert!(SubscriberName::parse("".to_string()).is_err());
    assert!(SubscriberName::parse(" \t\u{3000}".to_string()).is_err());
    assert!(SubscriberName::parse("a".repeat(256)).is_ok());
    assert!(SubscriberName::parse("ё".repeat(256)).is_ok());
    assert!(SubscriberName::parse("a".repeat(257)).is_err());
    for c in ['/', '(', ')', '"', '<', '>', '\\', '{', '}'] {
        assert!(SubscriberName::parse(format!("Ursula{}", c)).is_err());
    }
    assert!(SubscriberName::parse("Ursula\u{7}".to_string()).is_err());
    assert!(SubscriberName::parse("Ursula\u{85}x".to_string()).is_err());
}

#[test]
fn email_rules() {
    assert_eq!(
        SubscriberEmail::parse("ursula_le_guin@gmail.com".to_string()).ok().unwrap().as_str(),
        "ursula_le_guin@gmail.com"
    );
    assert!(SubscriberEmail::parse("".to_string()).is_err());
    assert!(SubscriberEmail::parse("ursuladomain.com".to_string()).is_err());
    assert!(SubscriberEmail::parse("@domain.com".to_string()).is_err());
}

#[test]
fn token_rules() {
    assert_eq!(token("abc123").as_str(), "abc123");
    assert!(SubscriptionToken::parse("ñandú7".to_string()).is_ok());
    assert!(SubscriptionToken::parse("abc!23".to_string()).is_err());
    assert!(SubscriptionToken::parse("abc 23".to_string()).is_err());
    let g = SubscriptionToken::generate();
    assert_eq!(g.as_str().len(), 25);
    assert!(SubscriptionToken::parse(g.as_str().to_string()).is_ok());
}

#[test]
fn name_length_counts_graphemes() {
    let combined = "e\u{301}".repeat(200);
    assert_eq!(combined.chars().count(), 400);
    assert!(SubscriberName::parse(combined).is_ok());
    assert!(SubscriberName::parse("e\u{301}".repeat(256)).is_ok());
    assert!(SubscriberName::parse("e\u{301}".repeat(257)).is_err());
}

#[test]
fn validation_messages() {
    assert_eq!(
        SubscriberName::parse("".to_string()).err().unwrap(),
        " is not a valid subscriber name."
    );
    assert_eq!(
        SubscriberEmail::parse("ursuladomain.com".to_string()).err().unwrap(),
        "ursuladomain.com is not a valid subscriber email."
    );
    assert_eq!(
        SubscriptionToken::parse("abc!23".to_string()).err().unwrap(),
        "Subscription token is alphanumeric."
    );
    let mut store = SubscriberStore::new();
    match subscribe(&mut store, form("le guin", "ursuladomain.com")) {
        Err(SubscribeError::ValidationError(m)) => {
            assert_eq!(m, "ursuladomain.com is not a valid subscriber email.")
        },
        _ => panic!("expected a validation error"),
    }
    match subscribe(&mut store, form("<le guin>", "ursuladomain.com")) {
        Err(SubscribeError::ValidationError(m)) => assert_eq!(m, "<le guin> is not a valid subscriber name."),
        _ => panic!("expected a validation error"),
    }
    match confirm(&mut store, params("abc!23")) {
        Err(ConfirmError::ValidationError(m)) => assert_eq!(m, "Subscription token is alphanumeric."),
        _ => panic!("expected a validation error"),
    }
}
