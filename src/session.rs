use vstd::prelude::*;

use crate::error::ClientError;
use crate::ratelimit::RateLimiter;

verus! {

/// An authenticated identity as the router sees it.
pub struct UserView {
    pub name: Seq<char>,
    pub uuid: u128,
    pub allow_messages: bool,
}

/// The public part of an identity, as carried by outbound events.
pub struct AuthorView {
    pub name: Seq<char>,
    pub uuid: u128,
}

pub enum EventView {
    Message { author_id: Seq<char>, author_info: Option<AuthorView>, content: Seq<char> },
    PrivateMessage { author_id: Seq<char>, author_info: Option<AuthorView>, content: Seq<char> },
    Error { message: ClientError },
}

/// A delivery sink: events queued for one connection.
pub struct OutboxView {
    pub events: Seq<EventView>,
    pub capacity: nat,
    pub open: bool,
}

impl OutboxView {
    /// Whether a send would be accepted: the sink is open and not full.
    pub open spec fn can_accept(self) -> bool {
        self.open && self.events.len() < self.capacity
    }

    /// The sink after a send of `ev`: queued when accepted, else unchanged.
    pub open spec fn sent(self, ev: EventView) -> OutboxView {
        if self.can_accept() {
            OutboxView { events: self.events.push(ev), ..self }
        } else {
            self
        }
    }
}

pub struct SessionView {
    pub id: u64,
    pub outbox: OutboxView,
    pub user: Option<UserView>,
    pub limiter: RateLimiter,
}

impl SessionView {
    /// The session after a best-effort send of `ev` to its own sink.
    pub open spec fn notified(self, ev: EventView) -> SessionView {
        SessionView { outbox: self.outbox.sent(ev), ..self }
    }

    /// Whether this session takes private messages.
    pub open spec fn receptive(self) -> bool {
        match self.user {
            Some(u) => u.allow_messages,
            None => false,
        }
    }
}

/// An authenticated identity: display name, durable account id and whether
/// it accepts private messages.
#[derive(Debug, Clone)]
pub struct UserInfo {
    pub name: String,
    pub uuid: u128,
    pub allow_messages: bool,
}

impl View for UserInfo {
    type V = UserView;

    open spec fn view(&self) -> UserView {
        UserView { name: self.name@, uuid: self.uuid, allow_messages: self.allow_messages }
    }
}

pub open spec fn user_view(u: Option<UserInfo>) -> Option<UserView> {
    match u {
        Some(i) => Some(i@),
        None => None,
    }
}

/// Public identity attached to a chat event.
#[derive(Debug, Clone)]
pub struct AuthorInfo {
    pub name: String,
    pub uuid: u128,
}

impl View for AuthorInfo {
    type V = AuthorView;

    open spec fn view(&self) -> AuthorView {
        AuthorView { name: self.name@, uuid: self.uuid }
    }
}

pub open spec fn author_view(a: Option<AuthorInfo>) -> Option<AuthorView> {
    match a {
        Some(i) => Some(i@),
        None => None,
    }
}

fn duplicate_author(a: &Option<AuthorInfo>) -> (r: Option<AuthorInfo>)
    ensures
        author_view(r) == author_view(*a),
{
    match a {
        Some(i) => Some(AuthorInfo { name: i.name.clone(), uuid: i.uuid }),
        None => None,
    }
}

/// The outbound payload sent to a client.
#[derive(Debug, Clone)]
pub enum ChatEvent {
    Message { author_id: String, author_info: Option<AuthorInfo>, content: String },
    PrivateMessage { author_id: String, author_info: Option<AuthorInfo>, content: String },
    Error { message: ClientError },
}

impl View for ChatEvent {
    type V = EventView;

    open spec fn view(&self) -> EventView {
        match self {
            ChatEvent::Message { author_id, author_info, content } => EventView::Message {
                author_id: author_id@,
                author_info: author_view(*author_info),
                content: content@,
            },
            ChatEvent::PrivateMessage { author_id, author_info, content } => {
                EventView::PrivateMessage {
                    author_id: author_id@,
                    author_info: author_view(*author_info),
                    content: content@,
                }
            },
            ChatEvent::Error { message } => EventView::Error { message: *message },
        }
    }
}

impl ChatEvent {
    /// A copy of this event for one more recipient.
    pub fn duplicate(&self) -> (r: ChatEvent)
        ensures
            r@ == self@,
    {
        match self {
            ChatEvent::Message { author_id, author_info, content } => ChatEvent::Message {
                author_id: author_id.clone(),
                author_info: duplicate_author(author_info),
                content: content.clone(),
            },
            ChatEvent::PrivateMessage { author_id, author_info, content } => {
                ChatEvent::PrivateMessage {
                    author_id: author_id.clone(),
                    author_info: duplicate_author(author_info),
                    content: content.clone(),
                }
            },
            ChatEvent::Error { message } => ChatEvent::Error { message: *message },
        }
    }
}

pub open spec fn events_view(v: Seq<ChatEvent>) -> Seq<EventView> {
    v.map_values(|e: ChatEvent| e@)
}

/// A bounded queue of events waiting to be written to one connection; a
/// send fails when the queue is full or the connection has gone.
#[derive(Debug)]
pub struct Outbox {
    pub events: Vec<ChatEvent>,
    pub capacity: usize,
    pub open: bool,
}

impl View for Outbox {
    type V = OutboxView;

    open spec fn view(&self) -> OutboxView {
        OutboxView { events: events_view(self.events@), capacity: self.capacity as nat, open: self.open }
    }
}

impl Outbox {
    pub fn new(capacity: usize) -> (r: Outbox)
        ensures
            r@ == (OutboxView { events: Seq::empty(), capacity: capacity as nat, open: true }),
    {
        let r = Outbox { events: Vec::new(), capacity, open: true };
        assert(r@.events =~= Seq::<EventView>::empty());
        r
    }

    /// Enqueues `ev` without blocking; returns whether it was accepted.
    pub fn send(&mut self, ev: ChatEvent) -> (delivered: bool)
        ensures
            delivered == old(self)@.can_accept(),
            final(self)@ == old(self)@.sent(ev@),
    {
        if self.open && self.events.len() < self.capacity {
            let ghost before = self.events@;
            self.events.push(ev);
            assert(events_view(self.events@) =~= events_view(before).push(ev@));
            true
        } else {
            false
        }
    }

    /// Marks the connection as gone: later sends fail.
    pub fn close(&mut self)
        ensures
            final(self)@ == (OutboxView { open: false, ..old(self)@ }),
    {
        self.open = false;
    }

    /// Takes every queued event, oldest first, leaving the queue empty.
    pub fn drain(&mut self) -> (r: Vec<ChatEvent>)
        ensures
            events_view(r@) == old(self)@.events,
            final(self)@ == (OutboxView { events: Seq::empty(), ..old(self)@ }),
    {
        let mut r: Vec<ChatEvent> = Vec::new();
        std::mem::swap(&mut self.events, &mut r);
        assert(events_view(self.events@) =~= Seq::<EventView>::empty());
        r
    }
}

/// One live connection.
#[derive(Debug)]
pub struct SessionState {
    pub id: u64,
    pub outbox: Outbox,
    pub user: Option<UserInfo>,
    pub rate_limiter: RateLimiter,
}

impl View for SessionState {
    type V = SessionView;

    open spec fn view(&self) -> SessionView {
        SessionView {
            id: self.id,
            outbox: self.outbox@,
            user: user_view(self.user),
            limiter: self.rate_limiter,
        }
    }
}

} // verus!
