use mesquitte_client::error::TokenError;
use mesquitte_client::pkid::{PacketIds, PKID_MAX, PKID_MIN};
use mesquitte_client::token::{Entry, Token, UnsubscribeToken};

type Held = Entry<&'static str, u8>;

fn tok(tag: &'static str) -> Held {
    Entry { waiter: tag, token: Token::Unsubscribe(UnsubscribeToken::new()) }
}

fn tag_of(e: &Held) -> String {
    e.waiter.to_string()
}

fn poll_of(e: &Held) -> Option<Option<TokenError>> {
    match &e.token {
        Token::Unsubscribe(u) => u.poll(),
        _ => None,
    }
}

#[test]
fn ids_are_issued_in_turn_from_two() {
    let mut ids: PacketIds<&str> = PacketIds::new();
    assert_eq!(ids.last_issued_id(), PKID_MIN);
    assert_eq!(ids.get_id("a"), 2);
    assert_eq!(ids.get_id("b"), 3);
    assert_eq!(ids.get_token(2), Some(&"a"));
    assert_eq!(ids.get_token(3), Some(&"b"));
    assert_eq!(ids.get_token(4), None);
}

#[test]
fn freed_id_is_reused_after_wrapping() {
    let mut ids: PacketIds<Held> = PacketIds::new();
    assert!(ids.claim_id(tok("a"), PKID_MAX).is_none());
    assert_eq!(ids.last_issued_id(), PKID_MAX);
    // the search wraps past 0 to 1
    assert_eq!(ids.get_id(tok("b")), 1);
    assert_eq!(ids.get_id(tok("c")), 2);
    assert_eq!(ids.free_id(&1).map(|t| tag_of(&t)), Some("b".to_string()));
    assert_eq!(ids.get_id(tok("d")), 3);
}

#[test]
fn claim_completes_the_displaced_token() {
    let mut ids: PacketIds<Held> = PacketIds::new();
    assert!(ids.claim_id(tok("t1"), 10).is_none());
    let displaced = ids.claim_id(tok("t2"), 10).unwrap();
    assert_eq!(tag_of(&displaced), "t1");
    assert!(matches!(poll_of(&displaced), Some(None)));
    let held = ids.get_token(10).unwrap();
    assert_eq!(tag_of(held), "t2");
    assert!(poll_of(held).is_none());
    assert_eq!(ids.last_issued_id(), 10);
    assert!(ids.claim_id(tok("t3"), 3).is_none());
    assert_eq!(ids.last_issued_id(), 10);
    assert_eq!(ids.get_id(tok("t4")), 11);
}

#[test]
fn zero_when_every_id_is_taken() {
    let mut ids: PacketIds<u32> = PacketIds::new();
    for i in 1..=65535u32 {
        assert_ne!(ids.get_id(i), 0);
    }
    assert_eq!(ids.get_id(0), 0);
    assert_eq!(ids.free_id(&700), Some(699));
    assert_eq!(ids.get_id(1), 700);
}

#[test]
fn clean_up_fails_tokens_in_id_order() {
    let mut ids: PacketIds<Held> = PacketIds::new();
    ids.claim_id(tok("z"), 9);
    ids.claim_id(tok("y"), 4);
    ids.get_id(tok("x"));
    let tokens = ids.clean_up();
    let tags: Vec<String> = tokens.iter().map(tag_of).collect();
    assert_eq!(tags, vec!["y".to_string(), "z".to_string(), "x".to_string()]);
    for t in &tokens {
        assert!(matches!(poll_of(t), Some(Some(TokenError::ConnectionLost))));
    }
    assert!(ids.get_token(9).is_none());
    assert_eq!(ids.get_id(tok("w")), 11);

    let mut fresh: PacketIds<Held> = PacketIds::new();
    assert_eq!(fresh.get_id(tok("a")), 2);
    fresh.clean_up();
    assert_eq!(fresh.get_id(tok("b")), 3);
}
