use vstd::prelude::*;

use crate::error::ClientError;
use crate::server::{
    accepts, broadcast_event, conn_index, error_event, first_accepting, has_conn,
    lemma_first_accepting_some, lookup, private_event, ChatServer,
};
use crate::session::SessionView;

verus! {

/// A sender that is not logged in gets exactly one `NotLoggedIn` and nothing
/// is dispatched, for a broadcast and for a private message alike.
pub proof fn law_not_logged_in(
    srv: &ChatServer,
    id: u64,
    receiver: Seq<char>,
    content: Seq<char>,
    now: u64,
)
    requires
        srv.wf(),
        has_conn(srv.sessions(), id),
        srv.sessions()[conn_index(srv.sessions(), id)].user is None,
    ensures
        ({
            let ss = srv.sessions();
            let j = conn_index(ss, id);
            let expected = ss.update(j, ss[j].notified(error_event(ClientError::NotLoggedIn)));
            &&& srv.after_message(id, content, now) == expected
            &&& srv.after_private_message(id, receiver, content, now) == expected
        }),
{
}

/// A logged-in sender over its rate limit gets exactly one `RateLimited`,
/// nothing is dispatched, and neither the content nor the ban list is
/// looked at: the outcome is the same for any content.
pub proof fn law_rate_limited(
    srv: &ChatServer,
    id: u64,
    receiver: Seq<char>,
    content: Seq<char>,
    other: Seq<char>,
    now: u64,
)
    requires
        srv.wf(),
        has_conn(srv.sessions(), id),
        srv.sessions()[conn_index(srv.sessions(), id)].user is Some,
        srv.sessions()[conn_index(srv.sessions(), id)].limiter.over_limit(now),
    ensures
        ({
            let ss = srv.sessions();
            let j = conn_index(ss, id);
            let s1 = SessionView { limiter: ss[j].limiter.after(now), ..ss[j] };
            let expected = ss.update(j, s1.notified(error_event(ClientError::RateLimited)));
            &&& srv.after_message(id, content, now) == expected
            &&& srv.after_private_message(id, receiver, content, now) == expected
            &&& srv.after_message(id, other, now) == expected
            &&& srv.after_private_message(id, receiver, other, now) == expected
        }),
{
}

/// A banned, logged-in sender within its rate limit whose content is valid
/// gets exactly one `Banned` and nothing is dispatched.
pub proof fn law_banned(
    srv: &ChatServer,
    id: u64,
    receiver: Seq<char>,
    content: Seq<char>,
    now: u64,
)
    requires
        srv.wf(),
        has_conn(srv.sessions(), id),
        srv.sessions()[conn_index(srv.sessions(), id)].user is Some,
        !srv.sessions()[conn_index(srv.sessions(), id)].limiter.over_limit(now),
        srv.validator.verdict(content) is Ok,
        srv.moderation.bans(srv.sessions()[conn_index(srv.sessions(), id)].user->0.uuid),
    ensures
        ({
            let ss = srv.sessions();
            let j = conn_index(ss, id);
            let s1 = SessionView { limiter: ss[j].limiter.after(now), ..ss[j] };
            let expected = ss.update(j, s1.notified(error_event(ClientError::Banned)));
            &&& srv.after_message(id, content, now) == expected
            &&& srv.after_private_message(id, receiver, content, now) == expected
        }),
{
}

/// An admitted broadcast makes exactly one delivery attempt at every
/// registered session, whatever the outcome of each attempt.
pub proof fn law_broadcast_once_each(srv: &ChatServer, id: u64, content: Seq<char>, now: u64)
    requires
        srv.wf(),
        has_conn(srv.sessions(), id),
        srv.admits(id, content, now),
    ensures
        ({
            let ss = srv.sessions();
            let ss1 = srv.after_gates(id, content, now);
            let ev = broadcast_event(ss[conn_index(ss, id)].user->0, content);
            let r = srv.after_message(id, content, now);
            &&& r.len() == ss.len()
            &&& forall|i: int| 0 <= i < ss.len() ==> r[i] == #[trigger] ss1[i].notified(ev)
        }),
{
}

/// An admitted private message goes to exactly one session, the first
/// candidate of the recipient that takes it, and the sender hears nothing.
pub proof fn law_private_first_success(
    srv: &ChatServer,
    id: u64,
    receiver: Seq<char>,
    content: Seq<char>,
    now: u64,
)
    requires
        srv.wf(),
        has_conn(srv.sessions(), id),
        srv.admits(id, content, now),
        lookup(srv.index(), receiver) is Some,
        first_accepting(srv.after_gates(id, content, now), lookup(srv.index(), receiver)->0) is Some,
    ensures
        ({
            let ss = srv.sessions();
            let ss1 = srv.after_gates(id, content, now);
            let rid = first_accepting(ss1, lookup(srv.index(), receiver)->0)->0;
            let k = conn_index(ss1, rid);
            let r = srv.after_private_message(id, receiver, content, now);
            &&& accepts(ss1, rid)
            &&& 0 <= k < ss1.len()
            &&& r == ss1.update(k, ss1[k].notified(private_event(ss[conn_index(ss, id)].user->0, content)))
        }),
{
    let ss1 = srv.after_gates(id, content, now);
    lemma_first_accepting_some(ss1, lookup(srv.index(), receiver)->0);
}

/// With three candidates where the first refuses private messages, the
/// second's sink fails and the third's accepts, the third gets the message,
/// the sender hears nothing and no other session changes.
pub proof fn law_private_fallback(
    srv: &ChatServer,
    id: u64,
    receiver: Seq<char>,
    content: Seq<char>,
    now: u64,
    a: u64,
    b: u64,
    c: u64,
)
    requires
        srv.wf(),
        has_conn(srv.sessions(), id),
        srv.admits(id, content, now),
        lookup(srv.index(), receiver) == Some(seq![a, b, c]),
        has_conn(srv.after_gates(id, content, now), a),
        !srv.after_gates(id, content, now)[conn_index(srv.after_gates(id, content, now), a)].receptive(),
        has_conn(srv.after_gates(id, content, now), b),
        srv.after_gates(id, content, now)[conn_index(srv.after_gates(id, content, now), b)].receptive(),
        !srv.after_gates(id, content, now)[conn_index(srv.after_gates(id, content, now), b)].outbox.can_accept(),
        has_conn(srv.after_gates(id, content, now), c),
        srv.after_gates(id, content, now)[conn_index(srv.after_gates(id, content, now), c)].receptive(),
        srv.after_gates(id, content, now)[conn_index(srv.after_gates(id, content, now), c)].outbox.can_accept(),
    ensures
        ({
            let ss = srv.sessions();
            let ss1 = srv.after_gates(id, content, now);
            let k = conn_index(ss1, c);
            srv.after_private_message(id, receiver, content, now) == ss1.update(
                k,
                ss1[k].notified(private_event(ss[conn_index(ss, id)].user->0, content)),
            )
        }),
{
    let ss1 = srv.after_gates(id, content, now);
    let cands = seq![a, b, c];
    assert(cands.drop_first() =~= seq![b, c]);
    assert(seq![b, c].drop_first() =~= seq![c]);
    assert(seq![c].drop_first() =~= Seq::<u64>::empty());
    assert(first_accepting(ss1, seq![c]) == Some(c));
    assert(first_accepting(ss1, seq![b, c]) == Some(c));
    assert(first_accepting(ss1, cands) == Some(c));
}

/// When none of the recipient's sessions allows private messages, the
/// sender gets exactly one `PrivateMessageNotAccepted` and nothing is
/// delivered.
pub proof fn law_private_exhausted(
    srv: &ChatServer,
    id: u64,
    receiver: Seq<char>,
    content: Seq<char>,
    now: u64,
)
    requires
        srv.wf(),
        has_conn(srv.sessions(), id),
        srv.admits(id, content, now),
        lookup(srv.index(), receiver) is Some,
        forall|i: int|
            0 <= i < lookup(srv.index(), receiver)->0.len() ==> {
                let ss1 = srv.after_gates(id, content, now);
                let cid = #[trigger] lookup(srv.index(), receiver)->0[i];
                has_conn(ss1, cid) ==> !ss1[conn_index(ss1, cid)].receptive()
            },
    ensures
        ({
            let ss1 = srv.after_gates(id, content, now);
            let j = conn_index(srv.sessions(), id);
            srv.after_private_message(id, receiver, content, now) == ss1.update(
                j,
                ss1[j].notified(error_event(ClientError::PrivateMessageNotAccepted)),
            )
        }),
{
    let ss1 = srv.after_gates(id, content, now);
    lemma_first_accepting_none(ss1, lookup(srv.index(), receiver)->0);
}

/// A private message to a name that the index does not hold is dropped: no
/// delivery and no error to the sender.
pub proof fn law_private_unknown(
    srv: &ChatServer,
    id: u64,
    receiver: Seq<char>,
    content: Seq<char>,
    now: u64,
)
    requires
        srv.wf(),
        has_conn(srv.sessions(), id),
        srv.admits(id, content, now),
        lookup(srv.index(), receiver) is None,
    ensures
        srv.after_private_message(id, receiver, content, now) == srv.after_gates(id, content, now),
{
}

/// Candidates none of which accepts leave the search empty-handed.
pub proof fn lemma_first_accepting_none(ss: Seq<SessionView>, cands: Seq<u64>)
    requires
        forall|i: int|
            0 <= i < cands.len() ==> (has_conn(ss, #[trigger] cands[i]) ==> !ss[conn_index(
                ss,
                cands[i],
            )].receptive()),
    ensures
        first_accepting(ss, cands) is None,
    decreases cands.len(),
{
    if cands.len() > 0 {
        assert(!accepts(ss, cands[0]));
        assert forall|i: int| 0 <= i < cands.drop_first().len() implies (has_conn(
            ss,
            #[trigger] cands.drop_first()[i],
        ) ==> !ss[conn_index(ss, cands.drop_first()[i])].receptive()) by {
            assert(cands.drop_first()[i] == cands[i + 1]);
        }
        lemma_first_accepting_none(ss, cands.drop_first());
    }
}

} // verus!
