use axochat::error::ClientError;
use axochat::moderation::Moderation;
use axochat::ratelimit::RateLimiter;
use axochat::session::{ChatEvent, Outbox};
use axochat::validator::{char_vec, is_control_char, Validator};

#[test]
fn validator_checks_in_order() {
    let v = Validator::new(3);
    assert_eq!(v.validate(""), Err(ClientError::EmptyMessage));
    assert_eq!(v.validate("abcd"), Err(ClientError::MessageTooLong));
    assert_eq!(v.validate("\u{7}\u{7}\u{7}\u{7}"), Err(ClientError::MessageTooLong));
    assert_eq!(v.validate("a\u{7}\n"), Err(ClientError::InvalidCharacter('\u{7}')));
    assert_eq!(v.validate("abc"), Ok(()));
    assert_eq!(v.validate("äöü"), Ok(()));
}

#[test]
fn validator_counts_characters_not_bytes() {
    let v = Validator::new(2);
    assert_eq!(v.validate("éé"), Ok(()));
    assert_eq!(char_vec("héllo"), vec!['h', 'é', 'l', 'l', 'o']);
}

#[test]
fn control_characters() {
    assert!(is_control_char('\u{0}'));
    assert!(is_control_char('\u{1f}'));
    assert!(is_control_char('\u{7f}'));
    assert!(is_control_char('\u{9f}'));
    assert!(!is_control_char(' '));
    assert!(!is_control_char('\u{a0}'));
    for c in ['a', '\u{7}', '\u{85}', 'ß'] {
        assert_eq!(is_control_char(c), c.is_control());
    }
}

#[test]
fn rate_limiter_window() {
    let mut r = RateLimiter::new(2, 100);
    assert!(!r.check_new_message(0));
    assert!(!r.check_new_message(50));
    assert!(r.check_new_message(99));
    assert_eq!(r.count, 2);
    assert!(!r.check_new_message(100));
    assert_eq!(r.window_start, 100);
    assert_eq!(r.count, 1);
}

#[test]
fn rate_limiter_zero_budget() {
    let mut r = RateLimiter::new(0, 100);
    assert!(r.check_new_message(0));
    assert!(r.check_new_message(500));
}

#[test]
fn outbox_capacity_and_close() {
    let mut o = Outbox::new(1);
    assert!(o.send(ChatEvent::Error { message: ClientError::Internal }));
    assert!(!o.send(ChatEvent::Error { message: ClientError::Internal }));
    let drained = o.drain();
    assert_eq!(drained.len(), 1);
    assert!(o.events.is_empty());
    o.close();
    assert!(!o.send(ChatEvent::Error { message: ClientError::Internal }));
}

#[test]
fn event_duplicate_keeps_fields() {
    let ev = ChatEvent::Message {
        author_id: "a".to_string(),
        author_info: None,
        content: "c".to_string(),
    };
    match ev.duplicate() {
        ChatEvent::Message { author_id, author_info, content } => {
            assert_eq!(author_id, "a");
            assert!(author_info.is_none());
            assert_eq!(content, "c");
        }
        _ => panic!("variant changed"),
    }
}

#[test]
fn moderation_bans() {
    let mut m = Moderation::new();
    assert!(!m.is_banned(5));
    m.ban(5);
    m.ban(5);
    assert!(m.is_banned(5));
    assert!(!m.is_banned(6));
    assert_eq!(m.banned, vec![5]);
}

#[test]
fn error_messages() {
    assert_eq!(ClientError::NotLoggedIn.message(), "not logged in");
    assert_eq!(ClientError::MessageTooLong.message(), "message was too long");
    assert_eq!(
        ClientError::InvalidCharacter('\u{7}').message(),
        "message contained invalid character: `\\u{7}`"
    );
    assert_eq!(
        ClientError::InvalidCharacter('\n').message(),
        "message contained invalid character: `\\n`"
    );
    assert_eq!(
        ClientError::InvalidCharacter('x').message(),
        "message contained invalid character: `x`"
    );
}
