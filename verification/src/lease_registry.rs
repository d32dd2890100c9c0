//! The leases of the claims held in this process.

use crate::assoc::{
    distinct_keys, has_key, to_map, to_map_domain, to_map_len, to_map_push, to_map_remove,
    to_map_update, to_map_value,
};
use crate::bytes::same_text;
use crate::error::Error;
use crate::store::entry;
use vstd::prelude::*;

verus! {

/// The lease of one claim.
#[derive(Debug)]
struct Lease {
    queue: String,
    id: String,
    state: LeaseState,
}

/// The state of a lease.
#[derive(Clone, Copy, Debug, PartialEq, Eq, Structural)]
pub struct LeaseState {
    /// When the lease runs out, in milliseconds since the epoch.
    pub expires_at: u64,
    /// The token of the claim that holds the lease.
    pub token: u64,
    /// Whether cancellation of the job was requested during the claim.
    pub cancelled: bool,
    /// Whether the lease ran out and its job is being requeued.
    pub reaping: bool,
}

/// How a renewal treats an expiry later than the requested one.
#[derive(Clone, Copy, Debug, PartialEq, Eq, Structural)]
pub enum Renewal {
    /// The lease runs out at the requested time.
    Exactly,
    /// The lease is never shortened.
    AtLeast,
}

/// A lease that ran out.
#[derive(Debug)]
pub struct DueLease {
    /// Queue of the job.
    pub queue: String,
    /// Id of the job.
    pub id: String,
    /// Token of the claim.
    pub token: u64,
    /// When the lease ran out.
    pub expires_at: u64,
}

/// The contents of a [`DueLease`].
pub struct DueView {
    pub queue: Seq<char>,
    pub id: Seq<char>,
    pub token: u64,
    pub expires_at: u64,
}

impl View for DueLease {
    type V = DueView;

    open spec fn view(&self) -> DueView {
        DueView {
            queue: self.queue@,
            id: self.id@,
            token: self.token,
            expires_at: self.expires_at,
        }
    }
}

/// The contents of a list of leases that ran out.
pub open spec fn due_views(due: Seq<DueLease>) -> Seq<DueView> {
    Seq::new(due.len(), |i: int| due[i]@)
}

/// Whether a job is among those whose leases ran out.
pub open spec fn named(due: Seq<DueView>, key: (Seq<char>, Seq<char>)) -> bool {
    exists|i: int| 0 <= i < due.len() && ((#[trigger] due[i]).queue, due[i].id) == key
}

/// Whether `due` are the leases that ran out by `now`, each once.
pub open spec fn all_due(
    leases: Map<(Seq<char>, Seq<char>), LeaseState>,
    due: Seq<DueView>,
    now: u64,
) -> bool {
    &&& forall|i: int|
        0 <= i < due.len() ==> {
            let lease = #[trigger] due[i];
            &&& leases.contains_key((lease.queue, lease.id))
            &&& leases[(lease.queue, lease.id)].token == lease.token
            &&& leases[(lease.queue, lease.id)].expires_at == lease.expires_at
            &&& lease.expires_at <= now
        }
    &&& forall|i: int, j: int|
        0 <= i < j < due.len() ==> (#[trigger] due[i]).queue != (#[trigger] due[j]).queue
            || due[i].id != due[j].id
    &&& forall|key: (Seq<char>, Seq<char>)| #[trigger]
        leases.contains_key(key) && leases[key].expires_at <= now ==> named(due, key)
}

/// The leases of the claims held in this process, by queue and job id.
#[derive(Debug)]
pub struct LeaseRegistry {
    leases: Vec<Lease>,
}

spec fn lease_pairs(leases: Seq<Lease>) -> Seq<((Seq<char>, Seq<char>), LeaseState)> {
    Seq::new(leases.len(), |i: int| ((leases[i].queue@, leases[i].id@), leases[i].state))
}

impl View for LeaseRegistry {
    type V = Map<(Seq<char>, Seq<char>), LeaseState>;

    closed spec fn view(&self) -> Map<(Seq<char>, Seq<char>), LeaseState> {
        to_map(lease_pairs(self.leases@))
    }
}

impl LeaseRegistry {
    #[verifier::type_invariant]
    spec fn inv(self) -> bool {
        distinct_keys(lease_pairs(self.leases@))
    }

    /// A registry without leases.
    pub fn new() -> (r: LeaseRegistry)
        ensures
            r@ == Map::<(Seq<char>, Seq<char>), LeaseState>::empty(),
    {
        let leases: Vec<Lease> = Vec::new();
        assert(lease_pairs(leases@) =~= Seq::empty());
        LeaseRegistry { leases }
    }

    fn position(&self, queue: &str, id: &str) -> (r: Option<usize>)
        ensures
            match r {
                Some(i) => {
                    &&& i < self.leases@.len()
                    &&& self.leases@[i as int].queue@ == queue@
                    &&& self.leases@[i as int].id@ == id@
                    &&& entry(self@, (queue@, id@)) == Some(self.leases@[i as int].state)
                },
                None => entry(self@, (queue@, id@)) is None && !has_key(
                    lease_pairs(self.leases@),
                    (queue@, id@),
                ),
            },
    {
        proof {
            use_type_invariant(self);
        }
        let ghost pairs = lease_pairs(self.leases@);
        let mut i: usize = 0;
        while i < self.leases.len()
            invariant
                0 <= i <= self.leases@.len(),
                pairs == lease_pairs(self.leases@),
                distinct_keys(pairs),
                forall|j: int| 0 <= j < i ==> (#[trigger] pairs[j]).0 != (queue@, id@),
            decreases self.leases@.len() - i,
        {
            if same_text(self.leases[i].queue.as_str(), queue) && same_text(
                self.leases[i].id.as_str(),
                id,
            ) {
                proof {
                    assert(pairs[i as int].0 == (queue@, id@));
                    to_map_value(pairs, i as int);
                }
                return Some(i);
            }
            assert(pairs[i as int].0 != (queue@, id@));
            i += 1;
        }
        proof {
            to_map_domain(pairs, (queue@, id@));
        }
        None
    }

    /// Registers the lease of a claim, in place of an earlier lease of the
    /// job.
    pub fn insert(&mut self, queue: &str, id: &str, expires_at: u64, token: u64, cancelled: bool)
        ensures
            final(self)@ == old(self)@.insert(
                (queue@, id@),
                LeaseState { expires_at, token, cancelled, reaping: false },
            ),
    {
        let state = LeaseState { expires_at, token, cancelled, reaping: false };
        match self.position(queue, id) {
            Some(i) => self.update(i, state),
            None => {
                proof {
                    use_type_invariant(&*self);
                }
                let ghost pairs = lease_pairs(self.leases@);
                let mut leases: Vec<Lease> = Vec::new();
                std::mem::swap(&mut leases, &mut self.leases);
                leases.push(Lease { queue: queue.to_owned(), id: id.to_owned(), state });
                proof {
                    to_map_push(pairs, (queue@, id@), state);
                    assert(lease_pairs(leases@) =~= pairs.push(((queue@, id@), state)));
                }
                self.leases = leases;
            },
        }
    }

    fn update(&mut self, i: usize, state: LeaseState)
        requires
            i < old(self).leases@.len(),
        ensures
            final(self)@ == old(self)@.insert(
                (old(self).leases@[i as int].queue@, old(self).leases@[i as int].id@),
                state,
            ),
            final(self).leases@.len() == old(self).leases@.len(),
    {
        proof {
            use_type_invariant(&*self);
        }
        let ghost pairs = lease_pairs(self.leases@);
        let mut leases: Vec<Lease> = Vec::new();
        std::mem::swap(&mut leases, &mut self.leases);
        let queue = leases[i].queue.clone();
        let id = leases[i].id.clone();
        leases.set(i, Lease { queue, id, state });
        proof {
            to_map_update(pairs, i as int, state);
            assert(lease_pairs(leases@) =~= pairs.update(i as int, (pairs[i as int].0, state)));
        }
        self.leases = leases;
    }

    /// The expiry and the token of a job's lease.
    pub fn current(&self, queue: &str, id: &str) -> (r: Option<(u64, u64)>)
        ensures
            match r {
                Some((expires_at, token)) => {
                    &&& self@.contains_key((queue@, id@))
                    &&& self@[(queue@, id@)].expires_at == expires_at
                    &&& self@[(queue@, id@)].token == token
                },
                None => !self@.contains_key((queue@, id@)),
            },
    {
        match self.position(queue, id) {
            Some(i) => Some((self.leases[i].state.expires_at, self.leases[i].state.token)),
            None => None,
        }
    }

    /// Drops the lease of the claim that `token` identifies; a lease of
    /// another claim of the job stays.
    pub fn remove(&mut self, queue: &str, id: &str, token: u64)
        ensures
            final(self)@ == match entry(old(self)@, (queue@, id@)) {
                Some(lease) if lease.token == token => old(self)@.remove((queue@, id@)),
                _ => old(self)@,
            },
    {
        match self.position(queue, id) {
            Some(i) => {
                if self.leases[i].state.token == token {
                    proof {
                        use_type_invariant(&*self);
                    }
                    let ghost pairs = lease_pairs(self.leases@);
                    let mut leases: Vec<Lease> = Vec::new();
                    std::mem::swap(&mut leases, &mut self.leases);
                    let _gone = leases.remove(i);
                    proof {
                        to_map_remove(pairs, i as int);
                        assert(lease_pairs(leases@) =~= pairs.remove(i as int));
                    }
                    self.leases = leases;
                }
            },
            None => {},
        }
    }

    /// The registry after a renewal, and whether the lease changed; `None`
    /// when the claim no longer holds a lease that can be renewed.
    pub open spec fn renewed(
        leases: Map<(Seq<char>, Seq<char>), LeaseState>,
        key: (Seq<char>, Seq<char>),
        token: u64,
        expires_at: u64,
        mode: Renewal,
    ) -> Option<(Map<(Seq<char>, Seq<char>), LeaseState>, bool)> {
        match entry(leases, key) {
            Some(lease) if lease.token == token && !lease.reaping => if mode == Renewal::Exactly
                || lease.expires_at < expires_at {
                Some((leases.insert(key, LeaseState { expires_at, ..lease }), true))
            } else {
                Some((leases, false))
            },
            _ => None,
        }
    }

    /// Moves the expiry of the claim's lease and reports whether it changed.
    /// A claim that ended, was superseded or whose job is being requeued has
    /// no lease to renew.
    pub fn renew(
        &mut self,
        queue: &str,
        id: &str,
        token: u64,
        expires_at: u64,
        mode: Renewal,
    ) -> (r: Result<bool, Error>)
        ensures
            match Self::renewed(old(self)@, (queue@, id@), token, expires_at, mode) {
                Some((after, changed)) => r == Ok::<bool, Error>(changed) && final(self)@ == after,
                None => r == Err::<bool, Error>(Error::ClaimLost) && final(self)@ == old(self)@,
            },
    {
        match self.position(queue, id) {
            Some(i) => {
                let state = self.leases[i].state;
                if state.token != token || state.reaping {
                    return Err(Error::ClaimLost);
                }
                let moved: bool = match mode {
                    Renewal::Exactly => true,
                    Renewal::AtLeast => state.expires_at < expires_at,
                };
                if moved {
                    self.update(i, LeaseState { expires_at, ..state });
                }
                Ok(moved)
            },
            None => Err(Error::ClaimLost),
        }
    }

    /// Marks the job's claim as cancelled and reports whether the job has
    /// one.
    pub fn cancel(&mut self, queue: &str, id: &str) -> (r: bool)
        ensures
            r == old(self)@.contains_key((queue@, id@)),
            final(self)@ == match entry(old(self)@, (queue@, id@)) {
                Some(lease) => old(self)@.insert(
                    (queue@, id@),
                    LeaseState { cancelled: true, ..lease },
                ),
                None => old(self)@,
            },
    {
        match self.position(queue, id) {
            Some(i) => {
                let state = self.leases[i].state;
                self.update(i, LeaseState { cancelled: true, ..state });
                true
            },
            None => false,
        }
    }

    /// Whether cancellation was requested during the job's current claim.
    pub fn is_cancelled(&self, queue: &str, id: &str) -> (r: bool)
        ensures
            r == (self@.contains_key((queue@, id@)) && self@[(queue@, id@)].cancelled),
    {
        match self.position(queue, id) {
            Some(i) => self.leases[i].state.cancelled,
            None => false,
        }
    }

    /// Whether the job has a lease that runs out at `expires_at`.
    pub fn contains(&self, queue: &str, id: &str, expires_at: u64) -> (r: bool)
        ensures
            r == (self@.contains_key((queue@, id@)) && self@[(queue@, id@)].expires_at
                == expires_at),
    {
        match self.position(queue, id) {
            Some(i) => self.leases[i].state.expires_at == expires_at,
            None => false,
        }
    }

    /// The number of leases.
    pub fn len(&self) -> (r: usize)
        ensures
            r == self@.dom().len(),
            self@.dom().finite(),
    {
        proof {
            use_type_invariant(self);
            to_map_len(lease_pairs(self.leases@));
        }
        self.leases.len()
    }

    /// The leases after those due at `now` are marked.
    pub open spec fn marked(
        leases: Map<(Seq<char>, Seq<char>), LeaseState>,
        now: u64,
    ) -> Map<(Seq<char>, Seq<char>), LeaseState> {
        Map::new(
            |key: (Seq<char>, Seq<char>)| leases.contains_key(key),
            |key: (Seq<char>, Seq<char>)|
                if leases[key].expires_at <= now {
                    LeaseState { reaping: true, ..leases[key] }
                } else {
                    leases[key]
                },
        )
    }

    /// Marks every lease that ran out by `now` and lists them. A marked lease
    /// stays until it is removed, so one whose job could not be requeued is
    /// listed again.
    pub fn take_due(&mut self, now: u64) -> (r: Vec<DueLease>)
        ensures
            final(self)@ == Self::marked(old(self)@, now),
            all_due(old(self)@, due_views(r@), now),
    {
        proof {
            use_type_invariant(&*self);
        }
        let ghost before = self@;
        let ghost pairs = lease_pairs(self.leases@);
        let mut due: Vec<DueLease> = Vec::new();
        let ghost mut origin: Seq<int> = Seq::empty();
        let mut i: usize = 0;
        while i < self.leases.len()
            invariant
                0 <= i <= self.leases@.len(),
                self.leases@.len() == pairs.len(),
                distinct_keys(pairs),
                before == to_map(pairs),
                forall|j: int|
                    0 <= j < pairs.len() ==> (#[trigger] self.leases@[j]).queue@ == pairs[j].0.0
                        && self.leases@[j].id@ == pairs[j].0.1 && self.leases@[j].state == (if j < i
                        && pairs[j].1.expires_at <= now {
                        LeaseState { reaping: true, ..pairs[j].1 }
                    } else {
                        pairs[j].1
                    }),
                origin.len() == due@.len(),
                forall|k: int| 0 <= k < origin.len() ==> 0 <= #[trigger] origin[k] < i,
                forall|k: int, l: int| 0 <= k < l < origin.len() ==> origin[k] < origin[l],
                forall|k: int|
                    0 <= k < due@.len() ==> (#[trigger] due@[k]).queue@ == pairs[origin[k]].0.0
                        && due@[k].id@ == pairs[origin[k]].0.1 && due@[k].token
                        == pairs[origin[k]].1.token && due@[k].expires_at
                        == pairs[origin[k]].1.expires_at && due@[k].expires_at <= now,
                forall|j: int|
                    0 <= j < i && (#[trigger] pairs[j]).1.expires_at <= now ==> exists|k: int|
                        0 <= k < origin.len() && #[trigger] origin[k] == j,
            decreases self.leases@.len() - i,
        {
            let ghost origin_before = origin;
            let state = self.leases[i].state;
            if state.expires_at <= now {
                due.push(
                    DueLease {
                        queue: self.leases[i].queue.clone(),
                        id: self.leases[i].id.clone(),
                        token: state.token,
                        expires_at: state.expires_at,
                    },
                );
                proof {
                    origin = origin.push(i as int);
                }
                self.mark(i);
            }
            proof {
                assert forall|j: int| 0 <= j < i + 1 && (#[trigger] pairs[j]).1.expires_at
                    <= now implies exists|k: int|
                    0 <= k < origin.len() && #[trigger] origin[k] == j by {
                    if j == i {
                        assert(origin[origin.len() - 1] == j);
                    } else {
                        let k = choose|k: int|
                            0 <= k < origin_before.len() && #[trigger] origin_before[k] == j;
                        assert(origin[k] == j);
                    }
                }
            }
            i += 1;
        }
        proof {
            let after = lease_pairs(self.leases@);
            assert forall|a: int, b: int| 0 <= a < b < after.len() implies after[a].0
                != after[b].0 by {
                assert(pairs[a].0 != pairs[b].0);
            }
            assert forall|key: (Seq<char>, Seq<char>)| #[trigger]
                Self::marked(before, now).contains_key(key) == self@.contains_key(key) by {
                to_map_domain(pairs, key);
                to_map_domain(after, key);
                if has_key(pairs, key) {
                    let j = choose|j: int| 0 <= j < pairs.len() && pairs[j].0 == key;
                    assert(after[j].0 == key);
                }
                if has_key(after, key) {
                    let j = choose|j: int| 0 <= j < after.len() && after[j].0 == key;
                    assert(pairs[j].0 == key);
                }
            }
            assert forall|key: (Seq<char>, Seq<char>)| #[trigger]
                self@.contains_key(key) implies self@[key] == Self::marked(before, now)[key] by {
                to_map_domain(after, key);
                let j = choose|j: int| 0 <= j < after.len() && after[j].0 == key;
                to_map_value(after, j);
                assert(pairs[j].0 == key);
                to_map_value(pairs, j);
            }
            assert(self@ =~= Self::marked(before, now));
            let views = due_views(due@);
            assert forall|k: int| 0 <= k < views.len() implies ({
                let d = #[trigger] views[k];
                &&& before.contains_key((d.queue, d.id))
                &&& before[(d.queue, d.id)].token == d.token
                &&& before[(d.queue, d.id)].expires_at == d.expires_at
                &&& d.expires_at <= now
            }) by {
                assert(views[k] == due@[k]@);
                to_map_value(pairs, origin[k]);
            }
            assert forall|key: (Seq<char>, Seq<char>)| #[trigger]
                before.contains_key(key) && before[key].expires_at <= now implies named(
                views,
                key,
            ) by {
                to_map_domain(pairs, key);
                let j = choose|j: int| 0 <= j < pairs.len() && pairs[j].0 == key;
                to_map_value(pairs, j);
                let k = choose|k: int| 0 <= k < origin.len() && #[trigger] origin[k] == j;
                assert(views[k] == due@[k]@);
                assert((views[k].queue, views[k].id) == key);
            }
            assert forall|k: int, l: int| 0 <= k < l < views.len() implies (
            #[trigger] views[k]).queue != (#[trigger] views[l]).queue || views[k].id
                != views[l].id by {
                assert(views[k] == due@[k]@);
                assert(views[l] == due@[l]@);
                assert(pairs[origin[k]].0 != pairs[origin[l]].0);
            }
        }
        due
    }

    fn mark(&mut self, i: usize)
        requires
            i < old(self).leases@.len(),
        ensures
            final(self).leases@.len() == old(self).leases@.len(),
            forall|j: int|
                0 <= j < final(self).leases@.len() ==> (#[trigger] final(self).leases@[j]).queue@
                    == old(self).leases@[j].queue@ && final(self).leases@[j].id@ == old(
                    self,
                ).leases@[j].id@ && final(self).leases@[j].state == (if j == i {
                    LeaseState { reaping: true, ..old(self).leases@[j].state }
                } else {
                    old(self).leases@[j].state
                }),
    {
        proof {
            use_type_invariant(&*self);
        }
        let ghost pairs = lease_pairs(self.leases@);
        let mut leases: Vec<Lease> = Vec::new();
        std::mem::swap(&mut leases, &mut self.leases);
        let queue = leases[i].queue.clone();
        let id = leases[i].id.clone();
        let state = LeaseState { reaping: true, ..leases[i].state };
        leases.set(i, Lease { queue, id, state });
        proof {
            to_map_update(pairs, i as int, state);
            assert(lease_pairs(leases@) =~= pairs.update(i as int, (pairs[i as int].0, state)));
        }
        self.leases = leases;
    }
}

} // verus!
