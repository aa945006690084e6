use vstd::prelude::*;

use crate::error::ClientError;
use crate::moderation::Moderation;
use crate::session::{
    AuthorInfo, AuthorView, ChatEvent, EventView, SessionState, SessionView, UserView,
};
use crate::validator::Validator;

verus! {

/// The connections currently logged in under one display name.
#[derive(Debug, Clone)]
pub struct IdentityEntry {
    pub name: String,
    pub connections: Vec<u64>,
}

/// The identity index as plain values: display name and connection ids.
pub open spec fn entry_view(e: IdentityEntry) -> (Seq<char>, Seq<u64>) {
    (e.name@, e.connections@)
}

pub open spec fn has_conn(ss: Seq<SessionView>, id: u64) -> bool {
    exists|j: int| 0 <= j < ss.len() && ss[j].id == id
}

/// The position of connection `id`; meaningful where `has_conn` holds.
pub open spec fn conn_index(ss: Seq<SessionView>, id: u64) -> int {
    choose|j: int| 0 <= j < ss.len() && ss[j].id == id
}

pub open spec fn has_name(ix: Seq<(Seq<char>, Seq<u64>)>, name: Seq<char>) -> bool {
    exists|a: int| 0 <= a < ix.len() && ix[a].0 == name
}

/// The position of the entry for `name`; meaningful where `has_name` holds.
pub open spec fn name_pos(ix: Seq<(Seq<char>, Seq<u64>)>, name: Seq<char>) -> int {
    choose|a: int| 0 <= a < ix.len() && ix[a].0 == name
}

pub open spec fn unique_ids(ss: Seq<SessionView>) -> bool {
    forall|a: int, b: int|
        0 <= a < ss.len() && 0 <= b < ss.len() && ss[a].id == ss[b].id ==> a == b
}

/// The connections registered under `name`, by the first entry that has it.
pub open spec fn lookup(ix: Seq<(Seq<char>, Seq<u64>)>, name: Seq<char>) -> Option<Seq<u64>>
    decreases ix.len(),
{
    if ix.len() == 0 {
        None
    } else if ix[0].0 == name {
        Some(ix[0].1)
    } else {
        lookup(ix.drop_first(), name)
    }
}

/// Whether connection `id` would take a private message now: it exists, its
/// identity allows private messages and its sink accepts a send.
pub open spec fn accepts(ss: Seq<SessionView>, id: u64) -> bool {
    has_conn(ss, id) && ss[conn_index(ss, id)].receptive()
        && ss[conn_index(ss, id)].outbox.can_accept()
}

/// The first candidate, in order, that takes a private message.
pub open spec fn first_accepting(ss: Seq<SessionView>, cands: Seq<u64>) -> Option<u64>
    decreases cands.len(),
{
    if cands.len() == 0 {
        None
    } else if accepts(ss, cands[0]) {
        Some(cands[0])
    } else {
        first_accepting(ss, cands.drop_first())
    }
}

pub open spec fn author_of(u: UserView) -> AuthorView {
    AuthorView { name: u.name, uuid: u.uuid }
}

pub open spec fn broadcast_event(u: UserView, content: Seq<char>) -> EventView {
    EventView::Message { author_id: u.name, author_info: Some(author_of(u)), content }
}

pub open spec fn private_event(u: UserView, content: Seq<char>) -> EventView {
    EventView::PrivateMessage { author_id: u.name, author_info: Some(author_of(u)), content }
}

pub open spec fn error_event(e: ClientError) -> EventView {
    EventView::Error { message: e }
}

/// Every session after a best-effort send of `ev` to each of them.
pub open spec fn broadcast(ss: Seq<SessionView>, ev: EventView) -> Seq<SessionView> {
    ss.map_values(|t: SessionView| t.notified(ev))
}

/// The routing core: the session table, the identity index kept beside it,
/// and the collaborators consulted by the gates.
#[derive(Debug)]
pub struct ChatServer {
    pub connections: Vec<SessionState>,
    pub ids: Vec<IdentityEntry>,
    pub validator: Validator,
    pub moderation: Moderation,
}

impl ChatServer {
    pub open spec fn sessions(&self) -> Seq<SessionView> {
        self.connections@.map_values(|s: SessionState| s@)
    }

    pub open spec fn index(&self) -> Seq<(Seq<char>, Seq<u64>)> {
        self.ids@.map_values(|e: IdentityEntry| entry_view(e))
    }

    /// Connection ids are unique, display names in the index are unique, and
    /// every connection in the index is live and logged in under that name.
    pub open spec fn wf(&self) -> bool {
        let ss = self.sessions();
        let ix = self.index();
        &&& unique_ids(ss)
        &&& forall|a: int, b: int|
            0 <= a < ix.len() && 0 <= b < ix.len() && ix[a].0 == ix[b].0 ==> a == b
        &&& forall|a: int, c: int|
            0 <= a < ix.len() && 0 <= c < ix[a].1.len() ==> {
                let id = #[trigger] ix[a].1[c];
                &&& has_conn(ss, id)
                &&& ss[conn_index(ss, id)].user is Some
                &&& ss[conn_index(ss, id)].user->0.name == ix[a].0
            }
    }

    /// What the gates decide on an attempt by session `s` at time `now`:
    /// login, then rate limit, then content, then ban; `None` admits it.
    pub open spec fn gate(&self, s: SessionView, content: Seq<char>, now: u64) -> Option<
        ClientError,
    > {
        match s.user {
            None => Some(ClientError::NotLoggedIn),
            Some(u) => if s.limiter.over_limit(now) {
                Some(ClientError::RateLimited)
            } else {
                match self.validator.verdict(content) {
                    Err(e) => Some(e),
                    Ok(_) => if self.moderation.bans(u.uuid) {
                        Some(ClientError::Banned)
                    } else {
                        None
                    },
                }
            },
        }
    }

    /// The sender's session after the gates: a logged-in sender's attempt is
    /// recorded by its limiter, and a rejection is reported to the sender.
    pub open spec fn gated(&self, s: SessionView, content: Seq<char>, now: u64) -> SessionView {
        let s1 = match s.user {
            None => s,
            Some(_) => SessionView { limiter: s.limiter.after(now), ..s },
        };
        match self.gate(s, content, now) {
            Some(e) => s1.notified(error_event(e)),
            None => s1,
        }
    }

    /// The session table after the gates ran on an attempt by `id`.
    pub open spec fn after_gates(&self, id: u64, content: Seq<char>, now: u64) -> Seq<
        SessionView,
    > {
        let ss = self.sessions();
        let j = conn_index(ss, id);
        ss.update(j, self.gated(ss[j], content, now))
    }

    pub open spec fn admits(&self, id: u64, content: Seq<char>, now: u64) -> bool {
        let ss = self.sessions();
        self.gate(ss[conn_index(ss, id)], content, now) is None
    }

    /// The session table after a broadcast attempt by `id`.
    pub open spec fn after_message(&self, id: u64, content: Seq<char>, now: u64) -> Seq<
        SessionView,
    > {
        let ss = self.sessions();
        let s = ss[conn_index(ss, id)];
        let ss1 = self.after_gates(id, content, now);
        if self.admits(id, content, now) {
            broadcast(ss1, broadcast_event(s.user->0, content))
        } else {
            ss1
        }
    }

    /// The session table after a private-message attempt by `id` to the
    /// identity named `receiver`.
    pub open spec fn after_private_message(
        &self,
        id: u64,
        receiver: Seq<char>,
        content: Seq<char>,
        now: u64,
    ) -> Seq<SessionView> {
        let ss = self.sessions();
        let j = conn_index(ss, id);
        let ss1 = self.after_gates(id, content, now);
        if !self.admits(id, content, now) {
            ss1
        } else {
            match lookup(self.index(), receiver) {
                None => ss1,
                Some(cands) => match first_accepting(ss1, cands) {
                    Some(rid) => {
                        let k = conn_index(ss1, rid);
                        ss1.update(
                            k,
                            ss1[k].notified(private_event(ss[j].user->0, content)),
                        )
                    },
                    None => ss1.update(
                        j,
                        ss1[j].notified(error_event(ClientError::PrivateMessageNotAccepted)),
                    ),
                },
            }
        }
    }

    /// The position of connection `id` in the session table.
    pub fn find_session(&self, id: u64) -> (r: Option<usize>)
        requires
            unique_ids(self.sessions()),
        ensures
            r is Some <==> has_conn(self.sessions(), id),
            r is Some ==> r->0 == conn_index(self.sessions(), id),
    {
        let mut i: usize = 0;
        while i < self.connections.len()
            invariant
                0 <= i <= self.connections@.len(),
                unique_ids(self.sessions()),
                forall|k: int| 0 <= k < i ==> self.sessions()[k].id != id,
            decreases self.connections@.len() - i,
        {
            if self.connections[i].id == id {
                proof {
                    lemma_conn_index(self.sessions(), id, i as int);
                }
                return Some(i);
            }
            i = i + 1;
        }
        None
    }
}

impl ChatServer {
    /// Runs the gates on an attempt by connection `user_id` and returns the
    /// sender's position when admitted. Each rejection is reported to the
    /// sender, best effort; only a logged-in sender's attempt is counted
    /// against its rate limit.
    pub fn basic_check(&mut self, user_id: u64, content: &str, now: u64) -> (r: Option<usize>)
        requires
            old(self).wf(),
            has_conn(old(self).sessions(), user_id),
        ensures
            r is Some <==> old(self).admits(user_id, content@, now),
            r is Some ==> r->0 == conn_index(old(self).sessions(), user_id),
            r is Some ==> r->0 < final(self).connections@.len(),
            final(self).sessions() == old(self).after_gates(user_id, content@, now),
            final(self).ids == old(self).ids,
            final(self).validator == old(self).validator,
            final(self).moderation == old(self).moderation,
    {
        let ghost ss = self.sessions();
        let j = match self.find_session(user_id) {
            Some(j) => j,
            None => {
                return None;
            },
        };
        let ghost s = ss[j as int];
        if self.connections[j].user.is_none() {
            let _ = self.connections[j].outbox.send(
                ChatEvent::Error { message: ClientError::NotLoggedIn },
            );
            assert(self.sessions() =~= ss.update(j as int, self.gated(s, content@, now)));
            return None;
        }
        if check_ratelimit(&mut self.connections[j], now) {
            assert(self.sessions() =~= ss.update(j as int, self.gated(s, content@, now)));
            return None;
        }
        match self.validator.validate(content) {
            Err(e) => {
                let _ = self.connections[j].outbox.send(ChatEvent::Error { message: e });
                assert(self.sessions() =~= ss.update(j as int, self.gated(s, content@, now)));
                return None;
            },
            Ok(()) => {},
        }
        let uuid = match &self.connections[j].user {
            Some(u) => u.uuid,
            None => 0,
        };
        if self.moderation.is_banned(uuid) {
            let _ = self.connections[j].outbox.send(
                ChatEvent::Error { message: ClientError::Banned },
            );
            assert(self.sessions() =~= ss.update(j as int, self.gated(s, content@, now)));
            return None;
        }
        assert(self.sessions() =~= ss.update(j as int, self.gated(s, content@, now)));
        Some(j)
    }
}

impl ChatServer {
    /// Handles a chat message from connection `user_id`. Once admitted it is
    /// sent to every registered session, the sender and sessions that are not
    /// logged in included; a failed send to one of them is skipped and not
    /// reported.
    pub fn handle_message(&mut self, user_id: u64, content: String, now: u64)
        requires
            old(self).wf(),
            has_conn(old(self).sessions(), user_id),
        ensures
            final(self).sessions() == old(self).after_message(user_id, content@, now),
            final(self).wf(),
            final(self).ids == old(self).ids,
            final(self).validator == old(self).validator,
            final(self).moderation == old(self).moderation,
    {
        let ghost ss0 = self.sessions();
        let ghost snap = *self;
        let ghost text = content@;
        let ghost ids0 = self.ids;
        let ghost validator0 = self.validator;
        let ghost moderation0 = self.moderation;
        let j = match self.basic_check(user_id, content.as_str(), now) {
            Some(j) => j,
            None => {
                proof {
                    lemma_routing_shape(&snap, user_id, Seq::empty(), text, now);
                    lemma_wf_frame(&snap, self);
                }
                return;
            },
        };
        assert(self.sessions()[j as int].user == ss0[j as int].user);
        let (name, uuid) = match &self.connections[j].user {
            Some(u) => (u.name.clone(), u.uuid),
            None => {
                proof {
                    lemma_routing_shape(&snap, user_id, Seq::empty(), text, now);
                    lemma_wf_frame(&snap, self);
                }
                return;
            },
        };
        let packet = ChatEvent::Message {
            author_id: name.clone(),
            author_info: Some(AuthorInfo { name, uuid }),
            content,
        };
        let ghost ss1 = self.sessions();
        assert(packet@ == broadcast_event(ss0[j as int].user->0, content@));
        let mut k: usize = 0;
        while k < self.connections.len()
            invariant
                0 <= k <= ss1.len(),
                self.connections@.len() == ss1.len(),
                forall|i: int| 0 <= i < k ==> self.sessions()[i] == ss1[i].notified(packet@),
                forall|i: int| k <= i < ss1.len() ==> self.sessions()[i] == ss1[i],
                self.ids == ids0,
                self.validator == validator0,
                self.moderation == moderation0,
            decreases ss1.len() - k,
        {
            let ghost before = self.sessions();
            let _ = self.connections[k].outbox.send(packet.duplicate());
            assert(self.sessions() =~= before.update(k as int, before[k as int].notified(packet@)));
            k = k + 1;
        }
        assert(self.sessions() =~= broadcast(ss1, packet@));
        proof {
            lemma_routing_shape(&snap, user_id, Seq::empty(), text, now);
            lemma_wf_frame(&snap, self);
        }
    }
}

impl ChatServer {
    /// The position in the identity index of the entry for `name`.
    pub fn find_identity(&self, name: &String) -> (r: Option<usize>)
        ensures
            r is None ==> lookup(self.index(), name@) is None,
            r is None ==> !has_name(self.index(), name@),
            r is Some ==> r->0 < self.ids@.len() && lookup(self.index(), name@) == Some(
                self.index()[r->0 as int].1,
            ),
            r is Some ==> self.index()[r->0 as int].0 == name@,
    {
        let ghost ix = self.index();
        let mut i: usize = 0;
        assert(ix.skip(0) =~= ix);
        while i < self.ids.len()
            invariant
                0 <= i <= self.ids@.len(),
                ix == self.index(),
                lookup(ix, name@) == lookup(ix.skip(i as int), name@),
                forall|k: int| 0 <= k < i ==> ix[k].0 != name@,
            decreases self.ids@.len() - i,
        {
            proof {
                assert(ix.skip(i as int).drop_first() =~= ix.skip(i + 1));
                assert(ix.skip(i as int)[0] == ix[i as int]);
            }
            if self.ids[i].name == *name {
                return Some(i);
            }
            i = i + 1;
        }
        assert(ix.skip(i as int) =~= Seq::<(Seq<char>, Seq<u64>)>::empty());
        None
    }

    /// Handles a private message from connection `user_id` to the identity
    /// named `receiver`. Once admitted, the identity's connections are tried
    /// in index order: one that does not allow private messages is passed
    /// over, one whose send fails is passed over, and the first send that
    /// succeeds ends the search. When the search runs out the sender gets
    /// `PrivateMessageNotAccepted`; an unknown name is dropped silently.
    pub fn handle_private_message(
        &mut self,
        user_id: u64,
        receiver: String,
        content: String,
        now: u64,
    )
        requires
            old(self).wf(),
            has_conn(old(self).sessions(), user_id),
        ensures
            final(self).sessions() == old(self).after_private_message(
                user_id,
                receiver@,
                content@,
                now,
            ),
            final(self).wf(),
            final(self).ids == old(self).ids,
            final(self).validator == old(self).validator,
            final(self).moderation == old(self).moderation,
    {
        let ghost ss0 = self.sessions();
        let ghost snap = *self;
        let ghost text = content@;
        let j = match self.basic_check(user_id, content.as_str(), now) {
            Some(j) => j,
            None => {
                proof {
                    lemma_routing_shape(&snap, user_id, receiver@, text, now);
                    lemma_wf_frame(&snap, self);
                }
                return;
            },
        };
        assert(self.sessions()[j as int].user == ss0[j as int].user);
        let (name, uuid) = match &self.connections[j].user {
            Some(u) => (u.name.clone(), u.uuid),
            None => {
                proof {
                    lemma_routing_shape(&snap, user_id, receiver@, text, now);
                    lemma_wf_frame(&snap, self);
                }
                return;
            },
        };
        let ghost ss1 = self.sessions();
        let ghost ev = private_event(ss0[j as int].user->0, content@);
        assert forall|i: int| 0 <= i < ss1.len() implies ss1[i].id == ss0[i].id by {}
        let e = match self.find_identity(&receiver) {
            Some(e) => e,
            None => {
                proof {
                    lemma_routing_shape(&snap, user_id, receiver@, text, now);
                    lemma_wf_frame(&snap, self);
                }
                return;
            },
        };
        let ghost cands = self.index()[e as int].1;
        assert(cands.skip(0) =~= cands);
        let n = self.ids[e].connections.len();
        let mut c: usize = 0;
        while c < n
            invariant
                0 <= c <= n,
                e < self.ids@.len(),
                n == cands.len(),
                cands == self.ids@[e as int].connections@,
                self.sessions() == ss1,
                unique_ids(ss1),
                j < ss1.len(),
                first_accepting(ss1, cands) == first_accepting(ss1, cands.skip(c as int)),
                ev == private_event(ss0[j as int].user->0, content@),
                ss0[j as int].user->0.name == name@,
                ss0[j as int].user->0.uuid == uuid,
                self.ids == old(self).ids,
                self.validator == old(self).validator,
                self.moderation == old(self).moderation,
                ss0 == old(self).sessions(),
                ss1 == old(self).after_gates(user_id, content@, now),
                old(self).admits(user_id, content@, now),
                j == conn_index(ss0, user_id),
                lookup(old(self).index(), receiver@) == Some(cands),
                snap == *old(self),
                snap.wf(),
                has_conn(snap.sessions(), user_id),
                text == content@,
            decreases n - c,
        {
            let cid = self.ids[e].connections[c];
            proof {
                assert(cands.skip(c as int).drop_first() =~= cands.skip(c + 1));
                assert(cands.skip(c as int)[0] == cid);
            }
            match self.find_session(cid) {
                Some(k) => {
                    let receptive = match &self.connections[k].user {
                        Some(u) => u.allow_messages,
                        None => false,
                    };
                    if receptive {
                        let packet = ChatEvent::PrivateMessage {
                            author_id: name.clone(),
                            author_info: Some(AuthorInfo { name: name.clone(), uuid }),
                            content: content.clone(),
                        };
                        assert(packet@ == ev);
                        if self.connections[k].outbox.send(packet) {
                            assert(accepts(ss1, cid));
                            assert(first_accepting(ss1, cands) == Some(cid));
                            assert(self.sessions() =~= ss1.update(
                                k as int,
                                ss1[k as int].notified(ev),
                            ));
                            proof {
                                lemma_routing_shape(&snap, user_id, receiver@, text, now);
                                lemma_wf_frame(&snap, self);
                            }
                            return;
                        }
                        assert(self.sessions() =~= ss1);
                    }
                },
                None => {},
            }
            c = c + 1;
        }
        assert(cands.skip(c as int) =~= Seq::<u64>::empty());
        let _ = self.connections[j].outbox.send(
            ChatEvent::Error { message: ClientError::PrivateMessageNotAccepted },
        );
        assert(self.sessions() =~= ss1.update(
            j as int,
            ss1[j as int].notified(error_event(ClientError::PrivateMessageNotAccepted)),
        ));
        proof {
            lemma_routing_shape(&snap, user_id, receiver@, text, now);
            lemma_wf_frame(&snap, self);
        }
    }
}

/// Two session tables of the same length whose ids and identities agree
/// position by position.
pub open spec fn same_shape(a: Seq<SessionView>, b: Seq<SessionView>) -> bool {
    &&& a.len() == b.len()
    &&& forall|i: int| 0 <= i < a.len() ==> #[trigger] a[i].id == b[i].id && a[i].user == b[i].user
}

/// Routing changes sinks and limiters only, never ids or identities.
pub proof fn lemma_routing_shape(
    srv: &ChatServer,
    id: u64,
    receiver: Seq<char>,
    content: Seq<char>,
    now: u64,
)
    requires
        srv.wf(),
        has_conn(srv.sessions(), id),
    ensures
        same_shape(srv.after_gates(id, content, now), srv.sessions()),
        same_shape(srv.after_message(id, content, now), srv.sessions()),
        same_shape(srv.after_private_message(id, receiver, content, now), srv.sessions()),
{
    let ss1 = srv.after_gates(id, content, now);
    assert(same_shape(ss1, srv.sessions()));
    match lookup(srv.index(), receiver) {
        Some(cands) => match first_accepting(ss1, cands) {
            Some(rid) => {
                lemma_first_accepting_some(ss1, cands);
            },
            None => {},
        },
        None => {},
    }
}

/// The invariant survives any change that keeps the index and the shape of
/// the session table.
pub proof fn lemma_wf_frame(a: &ChatServer, b: &ChatServer)
    requires
        a.wf(),
        b.ids == a.ids,
        same_shape(b.sessions(), a.sessions()),
    ensures
        b.wf(),
{
    let sa = a.sessions();
    let sb = b.sessions();
    let ix = b.index();
    assert forall|x: int, c: int| 0 <= x < ix.len() && 0 <= c < ix[x].1.len() implies {
        let id = #[trigger] ix[x].1[c];
        &&& has_conn(sb, id)
        &&& sb[conn_index(sb, id)].user is Some
        &&& sb[conn_index(sb, id)].user->0.name == ix[x].0
    } by {
        let id = ix[x].1[c];
        let j = conn_index(sa, id);
        assert(sb[j].id == sa[j].id);
        lemma_conn_index(sb, id, j);
    }
}

/// The first accepting candidate is one of the candidates, and it accepts.
pub proof fn lemma_first_accepting_some(ss: Seq<SessionView>, cands: Seq<u64>)
    requires
        first_accepting(ss, cands) is Some,
    ensures
        accepts(ss, first_accepting(ss, cands)->0),
        cands.contains(first_accepting(ss, cands)->0),
    decreases cands.len(),
{
    if !accepts(ss, cands[0]) {
        lemma_first_accepting_some(ss, cands.drop_first());
        let r = first_accepting(ss, cands)->0;
        let k = choose|k: int| 0 <= k < cands.drop_first().len() && cands.drop_first()[k] == r;
        assert(cands[k + 1] == r);
    } else {
        assert(cands[0] == cands[0]);
    }
}

/// With unique ids, the session that has `id` is the one `conn_index` names.
pub proof fn lemma_conn_index(ss: Seq<SessionView>, id: u64, j: int)
    requires
        unique_ids(ss),
        0 <= j < ss.len(),
        ss[j].id == id,
    ensures
        has_conn(ss, id),
        conn_index(ss, id) == j,
{
}

/// Records an attempt by `session` at time `now`; when it is over the budget,
/// reports `RateLimited` to the session and returns true.
pub fn check_ratelimit(session: &mut SessionState, now: u64) -> (limited: bool)
    ensures
        limited == old(session).rate_limiter.over_limit(now),
        final(session)@ == ({
            let s1 = SessionView { limiter: old(session)@.limiter.after(now), ..old(session)@ };
            if limited {
                s1.notified(error_event(ClientError::RateLimited))
            } else {
                s1
            }
        }),
{
    if session.rate_limiter.check_new_message(now) {
        let _ = session.outbox.send(ChatEvent::Error { message: ClientError::RateLimited });
        true
    } else {
        false
    }
}

} // verus!
