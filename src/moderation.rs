use vstd::prelude::*;

verus! {

/// The set of banned accounts, keyed by durable account id.
#[derive(Debug, Clone)]
pub struct Moderation {
    pub banned: Vec<u128>,
}

impl Moderation {
    pub open spec fn bans(&self, uuid: u128) -> bool {
        self.banned@.contains(uuid)
    }

    pub fn new() -> (r: Moderation)
        ensures
            r.banned@ == Seq::<u128>::empty(),
    {
        Moderation { banned: Vec::new() }
    }

    /// Bans `uuid`; banning an account twice changes nothing.
    pub fn ban(&mut self, uuid: u128)
        ensures
            forall|u: u128| final(self).bans(u) == (old(self).bans(u) || u == uuid),
    {
        let ghost before = self.banned@;
        if !self.is_banned(uuid) {
            self.banned.push(uuid);
            assert forall|u: u128| self.banned@.contains(u) == (before.contains(u) || u == uuid) by {
                if before.contains(u) {
                    let k = choose|k: int| 0 <= k < before.len() && before[k] == u;
                    assert(self.banned@[k] == u);
                }
                if u == uuid {
                    assert(self.banned@[before.len() as int] == u);
                }
                if self.banned@.contains(u) && u != uuid {
                    let k = choose|k: int| 0 <= k < self.banned@.len() && self.banned@[k] == u;
                    assert(before[k] == u);
                }
            }
        }
    }

    pub fn is_banned(&self, uuid: u128) -> (r: bool)
        ensures
            r == self.bans(uuid),
    {
        let mut i: usize = 0;
        while i < self.banned.len()
            invariant
                0 <= i <= self.banned@.len(),
                forall|k: int| 0 <= k < i ==> self.banned@[k] != uuid,
            decreases self.banned@.len() - i,
        {
            if self.banned[i] == uuid {
                return true;
            }
            i = i + 1;
        }
        false
    }
}

} // verus!
