use axochat::error::ClientError;
use axochat::moderation::Moderation;
use axochat::ratelimit::RateLimiter;
use axochat::server::ChatServer;
use axochat::session::{ChatEvent, UserInfo};
use axochat::validator::Validator;

fn user(name: &str, uuid: u128, allow_messages: bool) -> UserInfo {
    UserInfo { name: name.to_string(), uuid, allow_messages }
}

fn server() -> ChatServer {
    ChatServer::new(Validator::new(100), Moderation::new())
}

fn join(srv: &mut ChatServer, id: u64, capacity: usize, info: Option<UserInfo>) {
    assert!(srv.connect(id, capacity, RateLimiter::new(5, 1000)));
    if let Some(info) = info {
        assert!(srv.login(id, info).is_ok());
    }
}

fn session_events(srv: &ChatServer, id: u64) -> &Vec<ChatEvent> {
    let j = srv.find_session(id).unwrap();
    &srv.connections[j].outbox.events
}

fn is_error(ev: &ChatEvent, expected: ClientError) -> bool {
    matches!(ev, ChatEvent::Error { message } if *message == expected)
}

fn total_events(srv: &ChatServer) -> usize {
    srv.connections.iter().map(|s| s.outbox.events.len()).sum()
}

#[test]
fn broadcast_reaches_every_session() {
    let mut srv = server();
    join(&mut srv, 1, 8, Some(user("u1", 11, true)));
    join(&mut srv, 2, 8, Some(user("u2", 22, true)));
    join(&mut srv, 3, 8, None);
    srv.handle_message(1, "hello".to_string(), 10);
    for id in [1u64, 2, 3] {
        let evs = session_events(&srv, id);
        assert_eq!(evs.len(), 1);
        match &evs[0] {
            ChatEvent::Message { author_id, author_info, content } => {
                assert_eq!(author_id, "u1");
                let info = author_info.as_ref().unwrap();
                assert_eq!(info.name, "u1");
                assert_eq!(info.uuid, 11);
                assert_eq!(content, "hello");
            }
            other => panic!("unexpected event {:?}", other),
        }
    }
}

#[test]
fn broadcast_attempts_each_session_once_despite_failures() {
    let mut srv = server();
    join(&mut srv, 1, 8, Some(user("u1", 11, true)));
    join(&mut srv, 2, 0, Some(user("u2", 22, true)));
    join(&mut srv, 3, 8, Some(user("u3", 33, true)));
    let j = srv.find_session(3).unwrap();
    srv.connections[j].outbox.close();
    join(&mut srv, 4, 8, Some(user("u4", 44, true)));
    srv.handle_message(1, "hey".to_string(), 10);
    assert_eq!(session_events(&srv, 1).len(), 1);
    assert_eq!(session_events(&srv, 2).len(), 0);
    assert_eq!(session_events(&srv, 3).len(), 0);
    assert_eq!(session_events(&srv, 4).len(), 1);
}

#[test]
fn invalid_character_is_reported_and_not_sent() {
    let mut srv = server();
    join(&mut srv, 1, 8, Some(user("u1", 11, true)));
    join(&mut srv, 2, 8, Some(user("u2", 22, true)));
    srv.handle_message(1, "h\u{0007}i".to_string(), 10);
    let evs = session_events(&srv, 1);
    assert_eq!(evs.len(), 1);
    assert!(is_error(&evs[0], ClientError::InvalidCharacter('\u{0007}')));
    assert_eq!(session_events(&srv, 2).len(), 0);
}

#[test]
fn not_logged_in_gets_one_error() {
    let mut srv = server();
    join(&mut srv, 1, 8, None);
    join(&mut srv, 2, 8, Some(user("u2", 22, true)));
    srv.handle_message(1, "hello".to_string(), 10);
    srv.handle_private_message(1, "u2".to_string(), "hello".to_string(), 10);
    let evs = session_events(&srv, 1);
    assert_eq!(evs.len(), 2);
    assert!(is_error(&evs[0], ClientError::NotLoggedIn));
    assert!(is_error(&evs[1], ClientError::NotLoggedIn));
    assert_eq!(session_events(&srv, 2).len(), 0);
}

#[test]
fn rate_limited_before_content_checks() {
    let mut srv = server();
    assert!(srv.connect(1, 16, RateLimiter::new(2, 1000)));
    assert!(srv.login(1, user("u1", 11, true)).is_ok());
    join(&mut srv, 2, 16, Some(user("u2", 22, true)));
    srv.handle_message(1, "a".to_string(), 10);
    srv.handle_message(1, "b".to_string(), 11);
    // over budget: an empty message still gets RateLimited, not EmptyMessage
    srv.handle_message(1, "".to_string(), 12);
    srv.handle_private_message(1, "u2".to_string(), "c".to_string(), 13);
    let evs = session_events(&srv, 1);
    assert_eq!(evs.len(), 4);
    assert!(is_error(&evs[2], ClientError::RateLimited));
    assert!(is_error(&evs[3], ClientError::RateLimited));
    assert_eq!(session_events(&srv, 2).len(), 2);
    // a new window admits again
    srv.handle_message(1, "d".to_string(), 1010);
    assert_eq!(session_events(&srv, 2).len(), 3);
}

#[test]
fn banned_sender_gets_one_error() {
    let mut moderation = Moderation::new();
    moderation.ban(11);
    let mut srv = ChatServer::new(Validator::new(100), moderation);
    join(&mut srv, 1, 8, Some(user("u1", 11, true)));
    join(&mut srv, 2, 8, Some(user("u2", 22, true)));
    srv.handle_message(1, "hello".to_string(), 10);
    srv.handle_private_message(1, "u2".to_string(), "hello".to_string(), 10);
    let evs = session_events(&srv, 1);
    assert_eq!(evs.len(), 2);
    assert!(is_error(&evs[0], ClientError::Banned));
    assert!(is_error(&evs[1], ClientError::Banned));
    assert_eq!(session_events(&srv, 2).len(), 0);
}

#[test]
fn private_message_first_success() {
    let mut srv = server();
    join(&mut srv, 1, 8, Some(user("sender", 1, true)));
    join(&mut srv, 10, 8, Some(user("R", 7, false)));
    join(&mut srv, 20, 8, Some(user("R", 7, true)));
    join(&mut srv, 30, 8, Some(user("R", 7, true)));
    let j = srv.find_session(20).unwrap();
    srv.connections[j].outbox.close();
    srv.handle_private_message(1, "R".to_string(), "psst".to_string(), 10);
    assert_eq!(session_events(&srv, 1).len(), 0);
    assert_eq!(session_events(&srv, 10).len(), 0);
    assert_eq!(session_events(&srv, 20).len(), 0);
    let evs = session_events(&srv, 30);
    assert_eq!(evs.len(), 1);
    match &evs[0] {
        ChatEvent::PrivateMessage { author_id, author_info, content } => {
            assert_eq!(author_id, "sender");
            assert_eq!(author_info.as_ref().unwrap().uuid, 1);
            assert_eq!(content, "psst");
        }
        other => panic!("unexpected event {:?}", other),
    }
}

#[test]
fn private_message_goes_to_one_session_only() {
    let mut srv = server();
    join(&mut srv, 1, 8, Some(user("sender", 1, true)));
    join(&mut srv, 2, 8, Some(user("R", 7, true)));
    join(&mut srv, 3, 8, Some(user("R", 7, true)));
    srv.handle_private_message(1, "R".to_string(), "x".to_string(), 10);
    assert_eq!(session_events(&srv, 2).len(), 1);
    assert_eq!(session_events(&srv, 3).len(), 0);
}

#[test]
fn private_message_exhausted() {
    let mut srv = server();
    join(&mut srv, 1, 8, Some(user("sender", 1, true)));
    join(&mut srv, 2, 8, Some(user("R", 7, false)));
    join(&mut srv, 3, 8, Some(user("R", 7, false)));
    srv.handle_private_message(1, "R".to_string(), "x".to_string(), 10);
    let evs = session_events(&srv, 1);
    assert_eq!(evs.len(), 1);
    assert!(is_error(&evs[0], ClientError::PrivateMessageNotAccepted));
    assert_eq!(session_events(&srv, 2).len(), 0);
    assert_eq!(session_events(&srv, 3).len(), 0);
}

#[test]
fn private_message_unknown_recipient_is_dropped() {
    let mut srv = server();
    join(&mut srv, 1, 8, Some(user("sender", 1, true)));
    join(&mut srv, 2, 8, Some(user("R", 7, true)));
    srv.handle_private_message(1, "nobody".to_string(), "x".to_string(), 10);
    assert_eq!(total_events(&srv), 0);
}

#[test]
fn departed_recipient_is_unknown() {
    let mut srv = server();
    join(&mut srv, 1, 8, Some(user("sender", 1, true)));
    join(&mut srv, 2, 8, Some(user("R", 7, true)));
    assert!(srv.disconnect(2));
    assert!(!srv.disconnect(2));
    assert!(srv.find_identity(&"R".to_string()).is_none());
    srv.handle_private_message(1, "R".to_string(), "x".to_string(), 10);
    assert_eq!(total_events(&srv), 0);
}

#[test]
fn registry_rejects_duplicates() {
    let mut srv = server();
    join(&mut srv, 1, 8, Some(user("a", 1, true)));
    assert!(!srv.connect(1, 8, RateLimiter::new(5, 1000)));
    assert_eq!(srv.login(1, user("b", 2, true)), Err(ClientError::AlreadyLoggedIn));
    join(&mut srv, 2, 8, Some(user("a", 1, true)));
    let e = srv.find_identity(&"a".to_string()).unwrap();
    assert_eq!(srv.ids[e].connections, vec![1, 2]);
    assert!(srv.disconnect(1));
    assert_eq!(srv.ids[e].connections, vec![2]);
    assert!(srv.find_session(1).is_none());
}
