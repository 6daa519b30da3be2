use std::collections::HashMap;

use vstd::prelude::*;

use crate::rank::Rank;
use crate::store::{lemma_remove_distinct, lookup, position_u64, Store};
use crate::world::World;

verus! {

broadcast use vstd::std_specs::hash::group_hash_axioms;

/// The authenticated identity of a session.
pub struct User {
    pub lodestone_id: u64,
    pub name: String,
    pub world: World,
}

/// The state of one live connection.
pub struct ClientState {
    pub user: Option<User>,
    pub pk: Vec<u8>,
    pub allow_invites: bool,
}

impl ClientState {
    pub fn lodestone_id(&self) -> (r: Option<u64>)
        ensures
            r == identity_of(*self),
    {
        match &self.user {
            Some(u) => Some(u.lodestone_id),
            None => None,
        }
    }

    /// Whether this session's user is a member of channel `c`.
    pub fn in_channel(&self, store: &Store, c: u128) -> (r: bool)
        ensures
            r == (identity_of(*self) matches Some(k) && store.members_of(c).contains_key(k)),
    {
        match &self.user {
            Some(u) => store.rank_of(c, u.lodestone_id).is_some(),
            None => false,
        }
    }

    /// This session's user's rank in channel `c`, if a member.
    pub fn get_rank(&self, store: &Store, c: u128) -> (r: Option<Rank>)
        ensures
            r == (match identity_of(*self) {
                Some(k) => lookup(store.members_of(c), k),
                None => None,
            }),
    {
        match &self.user {
            Some(u) => store.rank_of(c, u.lodestone_id),
            None => None,
        }
    }

    /// Like `get_rank`, with `Invited` for an invitee.
    pub fn get_rank_invite(&self, store: &Store, c: u128) -> (r: Option<Rank>)
        requires
            store.wf(),
        ensures
            r == (match identity_of(*self) {
                Some(k) => if store.members_of(c).contains_key(k) {
                    Some(store.members_of(c)[k])
                } else if store.invites_of(c).contains_key(k) {
                    Some(Rank::Invited)
                } else {
                    None
                },
                None => None,
            }),
    {
        match &self.user {
            Some(u) => store.rank_or_invite(c, u.lodestone_id),
            None => None,
        }
    }
}

/// A pending request for a channel secret: who asked, for which channel,
/// and under which request number the answer must come back.
#[derive(Clone, Copy, Debug, PartialEq, Eq, Structural)]
pub struct SecretsRequestInfo {
    pub lodestone_id: u64,
    pub channel_id: u128,
    pub number: u32,
}

/// The process-wide indices over live sessions.
pub struct Registry {
    /// connection id to session
    pub sessions: HashMap<u64, ClientState>,
    /// every connection id once
    pub conns: Vec<u64>,
    /// identity to the connection that currently holds it
    pub clients: HashMap<u64, u64>,
    /// request id to pending secret request
    pub secrets_requests: HashMap<u128, SecretsRequestInfo>,
    pub messages_sent: u64,
    pub next_conn: u64,
}

/// The identity that a session is logged in as, if any.
pub open spec fn identity_of(s: ClientState) -> Option<u64> {
    match s.user {
        Some(u) => Some(u.lodestone_id),
        None => None,
    }
}

impl Registry {
    /// Connection ids are indexed exactly, and the identity index and the
    /// sessions' own identities agree in both directions.
    pub open spec fn wf(&self) -> bool {
        &&& self.conns@.no_duplicates()
        &&& forall|x: u64| self.conns@.contains(x) <==> #[trigger] self.sessions@.contains_key(x)
        &&& forall|x: u64| #[trigger] self.sessions@.contains_key(x) ==> x < self.next_conn
        &&& self.identities_agree()
    }

    /// Every session stored under an identity is logged in as that identity,
    /// and every logged-in session is the one stored under its identity.
    pub open spec fn identities_agree(&self) -> bool {
        &&& forall|k: u64| #[trigger] self.clients@.contains_key(k) ==> {
            &&& self.sessions@.contains_key(self.clients@[k])
            &&& identity_of(self.sessions@[self.clients@[k]]) == Some(k)
        }
        &&& forall|x: u64| #[trigger] self.sessions@.contains_key(x) ==> match identity_of(self.sessions@[x]) {
            Some(k) => self.clients@.contains_key(k) && self.clients@[k] == x,
            None => true,
        }
    }

    /// The connection of a live, logged-in session with this identity.
    pub open spec fn holder(&self, k: u64) -> Option<u64> {
        if self.clients@.contains_key(k) {
            Some(self.clients@[k])
        } else {
            None
        }
    }

    /// The connections that a fan-out to channel `c` reaches: every live
    /// session logged in as a member or invitee of `c`.
    pub open spec fn reaches(&self, store: &Store, c: u128, x: u64) -> bool {
        self.reaches_where(store, c, false, None, x)
    }

    /// Like `reaches`, limited to members when `members_only`, and never
    /// the identity `except`.
    pub open spec fn reaches_where(&self, store: &Store, c: u128, members_only: bool, except: Option<u64>, x: u64) -> bool {
        &&& self.sessions@.contains_key(x)
        &&& identity_of(self.sessions@[x]) matches Some(k)
        &&& if members_only { store.members_of(c).contains_key(k) } else { store.is_participant(c, k) }
        &&& except != Some(k)
    }

    pub fn new() -> (r: Registry)
        ensures
            r.wf(),
            r.sessions@ == Map::<u64, ClientState>::empty(),
            r.clients@ == Map::<u64, u64>::empty(),
            r.secrets_requests@ == Map::<u128, SecretsRequestInfo>::empty(),
            r.messages_sent == 0,
    {
        Registry {
            sessions: HashMap::new(),
            conns: Vec::new(),
            clients: HashMap::new(),
            secrets_requests: HashMap::new(),
            messages_sent: 0,
            next_conn: 0,
        }
    }

    /// Starts an unauthenticated session; `None` once connection ids run out.
    pub fn open_session(&mut self) -> (r: Option<u64>)
        requires
            old(self).wf(),
        ensures
            final(self).wf(),
            final(self).clients@ == old(self).clients@,
            final(self).secrets_requests@ == old(self).secrets_requests@,
            final(self).messages_sent == old(self).messages_sent,
            match r {
                Some(x) => {
                    &&& !old(self).sessions@.contains_key(x)
                    &&& final(self).sessions@ == old(self).sessions@.insert(
                        x,
                        ClientState { user: None, pk: final(self).sessions@[x].pk, allow_invites: false },
                    )
                    &&& final(self).sessions@[x].pk@.len() == 0
                },
                None => *final(self) == *old(self),
            },
            r is None <==> old(self).next_conn == u64::MAX,
    {
        if self.next_conn == u64::MAX {
            return None;
        }
        let x = self.next_conn;
        self.next_conn = x + 1;
        self.sessions.insert(x, ClientState { user: None, pk: Vec::new(), allow_invites: false });
        self.conns.push(x);
        proof {
            assert forall|y: u64| self.conns@.contains(y) <==> self.sessions@.contains_key(y) by {
                if y != x && old(self).conns@.contains(y) {
                    let i = choose|i: int| 0 <= i < old(self).conns@.len() && old(self).conns@[i] == y;
                    assert(self.conns@[i] == y);
                }
                if self.conns@.contains(y) && y != x {
                    let i = choose|i: int| 0 <= i < self.conns@.len() && self.conns@[i] == y;
                    assert(old(self).conns@[i] == y);
                }
                assert(self.conns@[self.conns@.len() - 1] == x);
            }
        }
        Some(x)
    }

    /// Ends a session. If it still holds its identity, the identity goes
    /// offline; an evicted session leaves the new holder in place.
    pub fn close_session(&mut self, x: u64)
        requires
            old(self).wf(),
        ensures
            final(self).wf(),
            final(self).sessions@ == old(self).sessions@.remove(x),
            final(self).clients@ == (match old(self).sessions@.get(x) {
                Some(s) => match identity_of(s) {
                    Some(k) => old(self).clients@.remove(k),
                    None => old(self).clients@,
                },
                None => old(self).clients@,
            }),
            final(self).secrets_requests@ == old(self).secrets_requests@,
            final(self).messages_sent == old(self).messages_sent,
    {
        if let Some(s) = self.sessions.remove(&x) {
            if let Some(u) = &s.user {
                self.clients.remove(&u.lodestone_id);
            }
            match position_u64(&self.conns, x) {
                Some(k) => {
                    proof {
                        lemma_remove_distinct(self.conns@, k as int);
                    }
                    self.conns.remove(k);
                },
                None => {},
            }
        }
        proof {
            assert(self.sessions@ =~= old(self).sessions@.remove(x));
        }
    }

    pub fn session(&self, x: u64) -> (r: Option<&ClientState>)
        ensures
            match r {
                Some(s) => self.sessions@.contains_key(x) && *s == self.sessions@[x],
                None => !self.sessions@.contains_key(x),
            },
    {
        self.sessions.get(&x)
    }

    /// The connection holding identity `k`, if it is online.
    pub fn client_conn(&self, k: u64) -> (r: Option<u64>)
        ensures
            r == self.holder(k),
    {
        match self.clients.get(&k) {
            Some(x) => Some(*x),
            None => None,
        }
    }

    /// Whether identity `k` has a live session.
    pub fn contains(&self, k: u64) -> (r: bool)
        ensures
            r == self.clients@.contains_key(k),
    {
        self.clients.contains_key(&k)
    }

    /// The identity of the online user with this name on this world.
    pub fn find_online(&self, name: &String, world: World) -> (r: Option<u64>)
        requires
            self.wf(),
        ensures
            match r {
                Some(k) => self.clients@.contains_key(k) && ({
                    let u = self.sessions@[self.clients@[k]].user->Some_0;
                    u.name@ == name@ && u.world == world
                }),
                None => forall|x: u64| #[trigger] self.sessions@.contains_key(x) ==> (
                    self.sessions@[x].user matches Some(u) ==> !(u.name@ == name@ && u.world == world)),
            },
    {
        let mut i: usize = 0;
        while i < self.conns.len()
            invariant
                self.wf(),
                i <= self.conns@.len(),
                forall|j: int| 0 <= j < i ==> ((#[trigger] self.sessions@[self.conns@[j]]).user matches Some(u)
                    ==> !(u.name@ == name@ && u.world == world)),
            decreases self.conns@.len() - i,
        {
            let x = self.conns[i];
            assert(self.conns@.contains(x));
            let s = self.sessions.get(&x).unwrap();
            if let Some(u) = &s.user {
                if u.name == *name && u.world == world {
                    return Some(u.lodestone_id);
                }
            }
            i = i + 1;
        }
        proof {
            assert forall|x: u64| #[trigger] self.sessions@.contains_key(x) implies (
                self.sessions@[x].user matches Some(u) ==> !(u.name@ == name@ && u.world == world)) by {
                assert(self.conns@.contains(x));
                let j = choose|j: int| 0 <= j < self.conns@.len() && self.conns@[j] == x;
                assert(self.sessions@[self.conns@[j]] == self.sessions@[x]);
            }
        }
        None
    }

    /// The connection of an online session logged in as `name` on `world`
    /// that accepts invites.
    pub fn find_invitable(&self, name: &String, world: World) -> (r: Option<u64>)
        requires
            self.wf(),
        ensures
            match r {
                Some(x) => self.sessions@.contains_key(x) && self.sessions@[x].allow_invites
                    && self.sessions@[x].user is Some && self.sessions@[x].user->Some_0.name@ == name@
                    && self.sessions@[x].user->Some_0.world == world,
                None => forall|x: u64| #[trigger] self.sessions@.contains_key(x) && self.sessions@[x].allow_invites
                    && self.sessions@[x].user is Some ==> !(self.sessions@[x].user->Some_0.name@ == name@
                    && self.sessions@[x].user->Some_0.world == world),
            },
    {
        let mut i: usize = 0;
        while i < self.conns.len()
            invariant
                self.wf(),
                i <= self.conns@.len(),
                forall|j: int| 0 <= j < i ==> (#[trigger] self.sessions@[self.conns@[j]]).allow_invites
                    && self.sessions@[self.conns@[j]].user is Some
                    ==> !(self.sessions@[self.conns@[j]].user->Some_0.name@ == name@
                    && self.sessions@[self.conns@[j]].user->Some_0.world == world),
            decreases self.conns@.len() - i,
        {
            let x = self.conns[i];
            assert(self.conns@.contains(x));
            let s = self.sessions.get(&x).unwrap();
            if s.allow_invites {
                if let Some(u) = &s.user {
                    if u.name == *name && u.world == world {
                        return Some(x);
                    }
                }
            }
            i = i + 1;
        }
        proof {
            assert forall|x: u64| #[trigger] self.sessions@.contains_key(x) && self.sessions@[x].allow_invites
                && self.sessions@[x].user is Some implies !(self.sessions@[x].user->Some_0.name@ == name@
                && self.sessions@[x].user->Some_0.world == world) by {
                assert(self.conns@.contains(x));
                let j = choose|j: int| 0 <= j < self.conns@.len() && self.conns@[j] == x;
                assert(self.sessions@[self.conns@[j]] == self.sessions@[x]);
            }
        }
        None
    }

    /// The connections of all logged-in sessions, each once.
    pub fn logged_in_conns(&self) -> (r: Vec<u64>)
        requires
            self.wf(),
        ensures
            r@.no_duplicates(),
            forall|x: u64| r@.contains(x) <==> (self.sessions@.contains_key(x) && self.sessions@[x].user is Some),
    {
        let mut out: Vec<u64> = Vec::new();
        let mut i: usize = 0;
        while i < self.conns.len()
            invariant
                self.wf(),
                i <= self.conns@.len(),
                out@.no_duplicates(),
                forall|x: u64| out@.contains(x) <==> (self.conns@.subrange(0, i as int).contains(x)
                    && self.sessions@.contains_key(x) && self.sessions@[x].user is Some),
            decreases self.conns@.len() - i,
        {
            let x = self.conns[i];
            assert(self.conns@.contains(x));
            let ghost prev = out@;
            let live = self.sessions.get(&x).unwrap().user.is_some();
            if live {
                out.push(x);
            }
            proof {
                let s0 = self.conns@.subrange(0, i as int);
                let s1 = self.conns@.subrange(0, i as int + 1);
                assert(s1 =~= s0.push(x));
                assert forall|y: u64| out@.contains(y) <==> (s1.contains(y) && self.sessions@.contains_key(y)
                    && self.sessions@[y].user is Some) by {
                    if s0.contains(y) {
                        let k = choose|k: int| 0 <= k < s0.len() && s0[k] == y;
                        assert(s1[k] == y);
                    }
                    if s1.contains(y) && y != x {
                        let k = choose|k: int| 0 <= k < s1.len() && s1[k] == y;
                        assert(s0[k] == y);
                    }
                    assert(s1[i as int] == x);
                    if live {
                        if out@.contains(y) && y != x {
                            let k = choose|k: int| 0 <= k < out@.len() && out@[k] == y;
                            assert(prev[k] == y);
                        }
                        if y != x && prev.contains(y) {
                            let k = choose|k: int| 0 <= k < prev.len() && prev[k] == y;
                            assert(out@[k] == y);
                        }
                        assert(out@[out@.len() - 1] == x);
                    }
                }
                if live {
                    assert(!prev.contains(x)) by {
                        if prev.contains(x) {
                            let k = choose|k: int| 0 <= k < s0.len() && s0[k] == x;
                            assert(self.conns@[k] == self.conns@[i as int]);
                        }
                    }
                    assert forall|a: int, b: int| 0 <= a < out@.len() && 0 <= b < out@.len() && a != b implies out@[a] != out@[b] by {
                        if a < prev.len() && b < prev.len() {
                            assert(out@[a] == prev[a] && out@[b] == prev[b]);
                        } else if a < prev.len() {
                            assert(prev.contains(out@[a]));
                        } else if b < prev.len() {
                            assert(prev.contains(out@[b]));
                        }
                    }
                }
            }
            i = i + 1;
        }
        proof {
            assert(self.conns@.subrange(0, i as int) =~= self.conns@);
        }
        out
    }

    /// The connections that a fan-out to channel `c` reaches, each once.
    pub fn recipients(&self, store: &Store, c: u128, members_only: bool, except: Option<u64>) -> (r: Vec<u64>)
        requires
            self.wf(),
        ensures
            r@.no_duplicates(),
            forall|x: u64| r@.contains(x) <==> self.reaches_where(store, c, members_only, except, x),
    {
        let mut out: Vec<u64> = Vec::new();
        let mut i: usize = 0;
        while i < self.conns.len()
            invariant
                self.wf(),
                i <= self.conns@.len(),
                out@.no_duplicates(),
                forall|x: u64| out@.contains(x) <==> (self.conns@.subrange(0, i as int).contains(x)
                    && self.reaches_where(store, c, members_only, except, x)),
            decreases self.conns@.len() - i,
        {
            let x = self.conns[i];
            assert(self.conns@.contains(x));
            let s = self.sessions.get(&x).unwrap();
            let ghost prev = out@;
            let reach = match &s.user {
                Some(u) => {
                    let k = u.lodestone_id;
                    let takes_part = if members_only {
                        store.rank_of(c, k).is_some()
                    } else {
                        store.rank_of(c, k).is_some() || store.is_invited(c, k)
                    };
                    takes_part && except != Some(k)
                },
                None => false,
            };
            if reach {
                out.push(x);
            }
            proof {
                let s0 = self.conns@.subrange(0, i as int);
                let s1 = self.conns@.subrange(0, i as int + 1);
                assert(s1 =~= s0.push(x));
                assert forall|y: u64| out@.contains(y) <==> (s1.contains(y) && self.reaches_where(store, c, members_only, except, y)) by {
                    if s0.contains(y) {
                        let k = choose|k: int| 0 <= k < s0.len() && s0[k] == y;
                        assert(s1[k] == y);
                    }
                    if s1.contains(y) && y != x {
                        let k = choose|k: int| 0 <= k < s1.len() && s1[k] == y;
                        assert(s0[k] == y);
                    }
                    assert(s1[i as int] == x);
                    if reach {
                        if out@.contains(y) && y != x {
                            let k = choose|k: int| 0 <= k < out@.len() && out@[k] == y;
                            assert(prev[k] == y);
                        }
                        if y != x && prev.contains(y) {
                            let k = choose|k: int| 0 <= k < prev.len() && prev[k] == y;
                            assert(out@[k] == y);
                        }
                        assert(out@[out@.len() - 1] == x);
                    }
                }
                if reach {
                    assert(!prev.contains(x)) by {
                        if prev.contains(x) {
                            let k = choose|k: int| 0 <= k < s0.len() && s0[k] == x;
                            assert(self.conns@[k] == self.conns@[i as int]);
                        }
                    }
                    assert forall|a: int, b: int| 0 <= a < out@.len() && 0 <= b < out@.len() && a != b implies out@[a] != out@[b] by {
                        if a < prev.len() && b < prev.len() {
                            assert(out@[a] == prev[a] && out@[b] == prev[b]);
                        } else if a < prev.len() {
                            assert(prev.contains(out@[a]));
                        } else if b < prev.len() {
                            assert(prev.contains(out@[b]));
                        }
                    }
                }
            }
            i = i + 1;
        }
        proof {
            assert(self.conns@.subrange(0, i as int) =~= self.conns@);
        }
        out
    }
    /// Logs session `x` in as `user`: any other session holding the same
    /// identity loses it first (and is returned, to be shut down), then `x`
    /// becomes the holder.
    pub fn install(&mut self, x: u64, user: User, pk: Vec<u8>, allow_invites: bool) -> (r: Option<u64>)
        requires
            old(self).wf(),
            old(self).sessions@.contains_key(x),
            identity_of(old(self).sessions@[x]) is None,
        ensures
            final(self).wf(),
            r == old(self).holder(user.lodestone_id),
            r != Some(x),
            final(self).clients@ == old(self).clients@.insert(user.lodestone_id, x),
            final(self).sessions@ == (match r {
                Some(y) => old(self).sessions@.insert(
                    y,
                    ClientState { user: None, pk: old(self).sessions@[y].pk, allow_invites: old(self).sessions@[y].allow_invites },
                ),
                None => old(self).sessions@,
            }).insert(x, ClientState { user: Some(user), pk, allow_invites }),
            final(self).secrets_requests@ == old(self).secrets_requests@,
            final(self).messages_sent == old(self).messages_sent,
    {
        let k = user.lodestone_id;
        let evicted = self.client_conn(k);
        if let Some(y) = evicted {
            let mut s = self.sessions.remove(&y).unwrap();
            s.user = None;
            self.sessions.insert(y, s);
        }
        let mut me = self.sessions.remove(&x).unwrap();
        me.user = Some(user);
        me.pk = pk;
        me.allow_invites = allow_invites;
        self.sessions.insert(x, me);
        self.clients.insert(k, x);
        proof {
            let mid = match evicted {
                Some(y) => old(self).sessions@.insert(
                    y,
                    ClientState { user: None, pk: old(self).sessions@[y].pk, allow_invites: old(self).sessions@[y].allow_invites },
                ),
                None => old(self).sessions@,
            };
            assert(self.sessions@ =~= mid.insert(x, me));
            assert forall|k2: u64| #[trigger] self.clients@.contains_key(k2) implies {
                &&& self.sessions@.contains_key(self.clients@[k2])
                &&& identity_of(self.sessions@[self.clients@[k2]]) == Some(k2)
            } by {
                if k2 != k {
                    let z = old(self).clients@[k2];
                    assert(identity_of(old(self).sessions@[z]) == Some(k2));
                    assert(z != x);
                    if let Some(y) = evicted {
                        assert(identity_of(old(self).sessions@[y]) == Some(k));
                        assert(z != y);
                    }
                }
            }
            assert forall|z: u64| #[trigger] self.sessions@.contains_key(z) implies match identity_of(self.sessions@[z]) {
                Some(k2) => self.clients@.contains_key(k2) && self.clients@[k2] == z,
                None => true,
            } by {
                if z != x && Some(z) != evicted {
                    assert(self.sessions@[z] == old(self).sessions@[z]);
                    if let Some(k2) = identity_of(old(self).sessions@[z]) {
                        assert(old(self).clients@[k2] == z);
                        if k2 == k {
                            assert(evicted == Some(z));
                        }
                    }
                }
            }
            assert forall|y: u64| self.conns@.contains(y) <==> #[trigger] self.sessions@.contains_key(y) by {
                assert(self.sessions@.contains_key(y) == old(self).sessions@.contains_key(y));
            }
        }
        evicted
    }

    /// Sets whether session `x` accepts invites.
    pub fn set_allow_invites(&mut self, x: u64, allowed: bool)
        requires
            old(self).wf(),
            old(self).sessions@.contains_key(x),
        ensures
            final(self).wf(),
            final(self).sessions@ == old(self).sessions@.insert(
                x,
                ClientState { user: old(self).sessions@[x].user, pk: old(self).sessions@[x].pk, allow_invites: allowed },
            ),
            final(self).clients@ == old(self).clients@,
            final(self).secrets_requests@ == old(self).secrets_requests@,
            final(self).messages_sent == old(self).messages_sent,
    {
        let mut s = self.sessions.remove(&x).unwrap();
        s.allow_invites = allowed;
        self.sessions.insert(x, s);
        proof {
            assert(self.sessions@.dom() =~= old(self).sessions@.dom());
            assert forall|y: u64| self.conns@.contains(y) <==> #[trigger] self.sessions@.contains_key(y) by {
                assert(self.sessions@.contains_key(y) == old(self).sessions@.contains_key(y));
            }
        }
    }

    /// Stores a refreshed name and world in the session of identity `k`, if online.
    pub fn refresh_user(&mut self, k: u64, name: String, world: World)
        requires
            old(self).wf(),
        ensures
            final(self).wf(),
            final(self).clients@ == old(self).clients@,
            final(self).sessions@.dom() == old(self).sessions@.dom(),
            forall|x: u64| #[trigger] final(self).sessions@.contains_key(x) ==> identity_of(final(self).sessions@[x]) == identity_of(old(self).sessions@[x]),
            old(self).clients@.contains_key(k) ==> final(self).sessions@[old(self).clients@[k]].user == Some(User { lodestone_id: k, name, world }),
            final(self).secrets_requests@ == old(self).secrets_requests@,
            final(self).messages_sent == old(self).messages_sent,
    {
        if let Some(x) = self.client_conn(k) {
            let mut s = self.sessions.remove(&x).unwrap();
            s.user = Some(User { lodestone_id: k, name, world });
            self.sessions.insert(x, s);
            proof {
                assert(self.sessions@.dom() =~= old(self).sessions@.dom());
                assert forall|y: u64| self.conns@.contains(y) <==> #[trigger] self.sessions@.contains_key(y) by {
                    assert(self.sessions@.contains_key(y) == old(self).sessions@.contains_key(y));
                }
            }
        }
    }

    /// Counts one accepted message; the counter wraps as an atomic add does.
    pub fn count_message(&mut self)
        requires
            old(self).wf(),
        ensures
            final(self).wf(),
            final(self).messages_sent == (if old(self).messages_sent == u64::MAX { 0 } else { (old(self).messages_sent + 1) as u64 }),
            final(self).sessions@ == old(self).sessions@,
            final(self).clients@ == old(self).clients@,
            final(self).secrets_requests@ == old(self).secrets_requests@,
    {
        self.messages_sent = self.messages_sent.wrapping_add(1);
    }

    pub fn add_secrets_request(&mut self, id: u128, info: SecretsRequestInfo)
        requires
            old(self).wf(),
        ensures
            final(self).wf(),
            final(self).secrets_requests@ == old(self).secrets_requests@.insert(id, info),
            final(self).sessions@ == old(self).sessions@,
            final(self).clients@ == old(self).clients@,
            final(self).messages_sent == old(self).messages_sent,
    {
        self.secrets_requests.insert(id, info);
    }

    pub fn secrets_request(&self, id: u128) -> (r: Option<SecretsRequestInfo>)
        ensures
            r == crate::store::lookup(self.secrets_requests@, id),
    {
        match self.secrets_requests.get(&id) {
            Some(info) => Some(*info),
            None => None,
        }
    }

    pub fn remove_secrets_request(&mut self, id: u128)
        requires
            old(self).wf(),
        ensures
            final(self).wf(),
            final(self).secrets_requests@ == old(self).secrets_requests@.remove(id),
            final(self).sessions@ == old(self).sessions@,
            final(self).clients@ == old(self).clients@,
            final(self).messages_sent == old(self).messages_sent,
    {
        self.secrets_requests.remove(&id);
    }
}

} // verus!
