use vstd::prelude::*;

use crate::error::ClientError;
use crate::moderation::Moderation;
use crate::ratelimit::RateLimiter;
use crate::server::{
    conn_index, has_conn, has_name, lemma_conn_index, name_pos, unique_ids, ChatServer,
    IdentityEntry,
};
use crate::session::{Outbox, OutboxView, SessionState, SessionView, UserInfo};
use crate::validator::Validator;

verus! {

/// The fresh session of a new connection: empty open sink, no identity.
pub open spec fn fresh_session(id: u64, capacity: usize, limiter: RateLimiter) -> SessionView {
    SessionView {
        id,
        outbox: OutboxView { events: Seq::empty(), capacity: capacity as nat, open: true },
        user: None,
        limiter,
    }
}

/// The index after connection `id` logs in as `name`: added to the entry for
/// `name`, or to a new entry at the end.
pub open spec fn index_with(ix: Seq<(Seq<char>, Seq<u64>)>, name: Seq<char>, id: u64) -> Seq<
    (Seq<char>, Seq<u64>),
> {
    if has_name(ix, name) {
        let a = name_pos(ix, name);
        ix.update(a, (name, ix[a].1.push(id)))
    } else {
        ix.push((name, seq![id]))
    }
}

/// `s` without the occurrences of `id`, order kept.
pub open spec fn without(s: Seq<u64>, id: u64) -> Seq<u64>
    decreases s.len(),
{
    if s.len() == 0 {
        s
    } else if s.last() == id {
        without(s.drop_last(), id)
    } else {
        without(s.drop_last(), id).push(s.last())
    }
}

/// The index after connection `id`, logged in as `name`, goes away: it
/// leaves the entry for `name`, and an entry left empty is removed.
pub open spec fn index_without(ix: Seq<(Seq<char>, Seq<u64>)>, name: Seq<char>, id: u64) -> Seq<
    (Seq<char>, Seq<u64>),
> {
    if has_name(ix, name) {
        let a = name_pos(ix, name);
        let rest = without(ix[a].1, id);
        if rest.len() == 0 {
            ix.remove(a)
        } else {
            ix.update(a, (name, rest))
        }
    } else {
        ix
    }
}

pub proof fn lemma_without_contains(s: Seq<u64>, id: u64, x: u64)
    ensures
        without(s, id).contains(x) <==> (s.contains(x) && x != id),
    decreases s.len(),
{
    if s.len() > 0 {
        let p = s.drop_last();
        let w = without(p, id);
        lemma_without_contains(p, id, x);
        if s.contains(x) && x != id {
            let k = choose|k: int| 0 <= k < s.len() && s[k] == x;
            if k < s.len() - 1 {
                assert(p[k] == x);
                assert(p.contains(x));
                let q = choose|q: int| 0 <= q < w.len() && w[q] == x;
                if s.last() != id {
                    assert(without(s, id)[q] == x);
                }
            } else {
                assert(without(s, id) == w.push(x));
                assert(without(s, id)[w.len() as int] == x);
            }
        }
        if without(s, id).contains(x) {
            if s.last() != id {
                let k = choose|k: int| 0 <= k < w.push(s.last()).len() && w.push(s.last())[k] == x;
                if k < w.len() {
                    assert(w[k] == x);
                    assert(w.contains(x));
                    let q = choose|q: int| 0 <= q < p.len() && p[q] == x;
                    assert(s[q] == x);
                } else {
                    assert(s[s.len() - 1] == x);
                }
            } else {
                assert(w.contains(x));
                let q = choose|q: int| 0 <= q < p.len() && p[q] == x;
                assert(s[q] == x);
            }
        }
    }
}

impl ChatServer {
    pub fn new(validator: Validator, moderation: Moderation) -> (r: ChatServer)
        ensures
            r.wf(),
            r.sessions() == Seq::<SessionView>::empty(),
            r.index() == Seq::<(Seq<char>, Seq<u64>)>::empty(),
            r.validator == validator,
            r.moderation == moderation,
    {
        let r = ChatServer { connections: Vec::new(), ids: Vec::new(), validator, moderation };
        assert(r.sessions() =~= Seq::<SessionView>::empty());
        assert(r.index() =~= Seq::<(Seq<char>, Seq<u64>)>::empty());
        r
    }

    /// Registers a new connection `id` with a sink of `capacity` events;
    /// refused when the id is already live.
    pub fn connect(&mut self, id: u64, capacity: usize, limiter: RateLimiter) -> (r: bool)
        requires
            old(self).wf(),
        ensures
            final(self).wf(),
            r == !has_conn(old(self).sessions(), id),
            r ==> final(self).sessions() == old(self).sessions().push(
                fresh_session(id, capacity, limiter),
            ),
            !r ==> final(self).sessions() == old(self).sessions(),
            final(self).ids == old(self).ids,
            final(self).validator == old(self).validator,
            final(self).moderation == old(self).moderation,
    {
        if self.find_session(id).is_some() {
            return false;
        }
        let ghost ss = self.sessions();
        let ghost ix = self.index();
        self.connections.push(
            SessionState { id, outbox: Outbox::new(capacity), user: None, rate_limiter: limiter },
        );
        let ghost ns = self.sessions();
        assert(ns =~= ss.push(fresh_session(id, capacity, limiter)));
        assert forall|x: int, c: int| 0 <= x < ix.len() && 0 <= c < ix[x].1.len() implies {
            let cid = #[trigger] ix[x].1[c];
            &&& has_conn(ns, cid)
            &&& ns[conn_index(ns, cid)].user is Some
            &&& ns[conn_index(ns, cid)].user->0.name == ix[x].0
        } by {
            let cid = ix[x].1[c];
            let k = conn_index(ss, cid);
            assert(ns[k] == ss[k]);
            lemma_conn_index(ns, cid, k);
        }
        true
    }

    /// Binds connection `id` to `info`; a connection that is already logged
    /// in gets `AlreadyLoggedIn` and nothing changes.
    pub fn login(&mut self, id: u64, info: UserInfo) -> (r: Result<(), ClientError>)
        requires
            old(self).wf(),
            has_conn(old(self).sessions(), id),
        ensures
            final(self).wf(),
            ({
                let ss = old(self).sessions();
                let j = conn_index(ss, id);
                if ss[j].user is Some {
                    &&& r == Err::<(), ClientError>(ClientError::AlreadyLoggedIn)
                    &&& final(self).sessions() == ss
                    &&& final(self).index() == old(self).index()
                } else {
                    &&& r == Ok::<(), ClientError>(())
                    &&& final(self).sessions() == ss.update(
                        j,
                        SessionView { user: Some(info@), ..ss[j] },
                    )
                    &&& final(self).index() == index_with(old(self).index(), info.name@, id)
                }
            }),
            final(self).validator == old(self).validator,
            final(self).moderation == old(self).moderation,
    {
        let j = match self.find_session(id) {
            Some(j) => j,
            None => {
                return Err(ClientError::Internal);
            },
        };
        if self.connections[j].user.is_some() {
            return Err(ClientError::AlreadyLoggedIn);
        }
        let ghost ss = self.sessions();
        let ghost ix = self.index();
        let ghost nv = info@;
        let name = info.name.clone();
        self.connections[j].user = Some(info);
        let ghost ns = self.sessions();
        assert(ns =~= ss.update(j as int, SessionView { user: Some(nv), ..ss[j as int] }));
        let found = self.find_identity(&name);
        match found {
            Some(e) => {
                self.ids[e].connections.push(id);
            },
            None => {
                let mut conns: Vec<u64> = Vec::new();
                conns.push(id);
                self.ids.push(IdentityEntry { name, connections: conns });
            },
        }
        let ghost nx = self.index();
        proof {
            // the connection was in no entry: entries hold logged-in connections only
            assert forall|x: int, c: int| 0 <= x < ix.len() && 0 <= c < ix[x].1.len() implies #[trigger] ix[x].1[c] != id by {
                if ix[x].1[c] == id {
                    lemma_conn_index(ss, id, j as int);
                }
            }
            match found {
                Some(e) => {
                    assert(nx =~= ix.update(e as int, (nv.name, ix[e as int].1.push(id))));
                    assert(name_pos(ix, nv.name) == e);
                },
                None => {
                    assert(nx =~= ix.push((nv.name, seq![id])));
                },
            }
            assert(nx == index_with(ix, nv.name, id));
            assert forall|x: int, c: int| 0 <= x < nx.len() && 0 <= c < nx[x].1.len() implies {
                let cid = #[trigger] nx[x].1[c];
                &&& has_conn(ns, cid)
                &&& ns[conn_index(ns, cid)].user is Some
                &&& ns[conn_index(ns, cid)].user->0.name == nx[x].0
            } by {
                let cid = nx[x].1[c];
                if cid == id {
                    lemma_conn_index(ns, id, j as int);
                    if x < ix.len() {
                        if c < ix[x].1.len() {
                            assert(ix[x].1[c] == cid);
                        }
                    }
                } else {
                    assert(x < ix.len() && c < ix[x].1.len() && ix[x].1[c] == cid);
                    let k = conn_index(ss, cid);
                    lemma_conn_index(ss, cid, k);
                    assert(k != j);
                    lemma_conn_index(ns, cid, k);
                }
            }
            assert forall|a: int, b: int|
                0 <= a < nx.len() && 0 <= b < nx.len() && nx[a].0 == nx[b].0 implies a == b by {
                if a < ix.len() && b < ix.len() {
                    assert(ix[a].0 == nx[a].0 && ix[b].0 == nx[b].0);
                }
            }
            assert(unique_ids(ns));
        }
        Ok(())
    }
}

/// The ids of `v` other than `id`, order kept.
pub fn without_id(v: &Vec<u64>, id: u64) -> (r: Vec<u64>)
    ensures
        r@ == without(v@, id),
{
    let mut out: Vec<u64> = Vec::new();
    let mut i: usize = 0;
    assert(v@.take(0) =~= Seq::<u64>::empty());
    while i < v.len()
        invariant
            0 <= i <= v@.len(),
            out@ == without(v@.take(i as int), id),
        decreases v@.len() - i,
    {
        assert(v@.take(i + 1).drop_last() =~= v@.take(i as int));
        if v[i] != id {
            out.push(v[i]);
        }
        i = i + 1;
    }
    assert(v@.take(i as int) =~= v@);
    out
}

impl ChatServer {
    /// Removes connection `id` and takes it out of the identity index; returns
    /// whether it was live.
    pub fn disconnect(&mut self, id: u64) -> (r: bool)
        requires
            old(self).wf(),
        ensures
            final(self).wf(),
            r == has_conn(old(self).sessions(), id),
            r ==> ({
                let ss = old(self).sessions();
                let j = conn_index(ss, id);
                &&& final(self).sessions() == ss.remove(j)
                &&& final(self).index() == match ss[j].user {
                    Some(u) => index_without(old(self).index(), u.name, id),
                    None => old(self).index(),
                }
            }),
            !r ==> final(self).sessions() == old(self).sessions() && final(self).index()
                == old(self).index(),
            final(self).validator == old(self).validator,
            final(self).moderation == old(self).moderation,
    {
        let j = match self.find_session(id) {
            Some(j) => j,
            None => {
                return false;
            },
        };
        let ghost ss = self.sessions();
        let ghost ix = self.index();
        let session = self.connections.remove(j);
        let ghost ns = self.sessions();
        assert(ns =~= ss.remove(j as int));
        let ghost mut a: int = -1;
        if let Some(u) = &session.user {
            match self.find_identity(&u.name) {
                Some(e) => {
                    proof {
                        a = e as int;
                    }
                    let rest = without_id(&self.ids[e].connections, id);
                    if rest.len() == 0 {
                        self.ids.remove(e);
                        assert(self.index() =~= ix.remove(e as int));
                    } else {
                        self.ids[e].connections = rest;
                        assert(self.index() =~= ix.update(e as int, (u.name@, without(ix[e as int].1, id))));
                    }
                },
                None => {},
            }
        }
        let ghost nx = self.index();
        proof {
            lemma_conn_index(ss, id, j as int);
            assert(unique_ids(ns)) by {
                assert forall|p: int, q: int|
                    0 <= p < ns.len() && 0 <= q < ns.len() && ns[p].id == ns[q].id implies p == q by {
                    let p1 = if p < j { p } else { p + 1 };
                    let q1 = if q < j { q } else { q + 1 };
                    assert(ns[p] == ss[p1] && ns[q] == ss[q1]);
                }
            }
            match ss[j as int].user {
                Some(u) => {
                    if a >= 0 {
                        assert(name_pos(ix, u.name) == a);
                    }
                    assert(nx == index_without(ix, u.name, id));
                },
                None => {
                    assert(nx =~= ix);
                },
            }
            // every entry of the new index comes from an entry of the old one
            // with the same name, minus `id`
            assert forall|x: int, c: int| 0 <= x < nx.len() && 0 <= c < nx[x].1.len() implies {
                let cid = #[trigger] nx[x].1[c];
                &&& has_conn(ns, cid)
                &&& ns[conn_index(ns, cid)].user is Some
                &&& ns[conn_index(ns, cid)].user->0.name == nx[x].0
            } by {
                let cid = nx[x].1[c];
                let y: int = if a >= 0 && x >= a && nx.len() < ix.len() { x + 1 } else { x };
                assert(ix[y].0 == nx[x].0);
                if a >= 0 && y == a {
                    lemma_without_contains(ix[a].1, id, cid);
                    assert(nx[x].1.contains(cid));
                    assert(ix[y].1.contains(cid));
                } else {
                    assert(ix[y].1[c] == cid);
                    assert(ix[y].1.contains(cid));
                }
                let c1 = choose|c1: int| 0 <= c1 < ix[y].1.len() && ix[y].1[c1] == cid;
                assert(ix[y].1[c1] == cid);
                if cid == id {
                    // only the entry named after the session held it
                    assert(ss[j as int].user is Some);
                    assert(ix[y].0 == ss[j as int].user->0.name);
                    assert(y == a);
                    lemma_without_contains(ix[a].1, id, cid);
                }
                assert(cid != id);
                let k = conn_index(ss, cid);
                lemma_conn_index(ss, cid, k);
                assert(k != j);
                let k1 = if k < j { k } else { k - 1 };
                assert(ns[k1] == ss[k]);
                lemma_conn_index(ns, cid, k1);
            }
            assert forall|p: int, q: int|
                0 <= p < nx.len() && 0 <= q < nx.len() && nx[p].0 == nx[q].0 implies p == q by {
                let p1: int = if a >= 0 && p >= a && nx.len() < ix.len() { p + 1 } else { p };
                let q1: int = if a >= 0 && q >= a && nx.len() < ix.len() { q + 1 } else { q };
                assert(ix[p1].0 == nx[p].0 && ix[q1].0 == nx[q].0);
            }
        }
        true
    }
}

} // verus!
