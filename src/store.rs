use std::collections::HashMap;

use vstd::prelude::*;

use crate::rank::{rank_level, Rank};
use crate::world::World;

verus! {

broadcast use vstd::std_specs::hash::group_hash_axioms;

/// A registered character: its identity, cached profile and API key lookup.
pub struct UserRow {
    pub lodestone_id: u64,
    pub name: String,
    pub world: World,
    pub key_short: String,
    pub key_hash: String,
    pub last_updated: i64,
}

/// One member or invitee of a channel as the database lists it; invitees
/// carry rank 0, and `world` is the world's name.
pub struct RawMember {
    pub lodestone_id: i64,
    pub name: String,
    pub world: String,
    pub rank: i64,
}

/// An outstanding registration challenge and when it was issued.
pub struct Verification {
    pub challenge: String,
    pub created_at: i64,
}

/// One channel row with its memberships and its pending invites.
pub struct ChannelRecord {
    pub name: Vec<u8>,
    /// member id to rank; `Invited` never appears here
    pub members: HashMap<u64, Rank>,
    /// invited id to the id of whoever invited them
    pub invites: HashMap<u64, u64>,
}

/// One change made to the tables, in the order it was made, for whoever
/// mirrors them to durable storage.
pub enum StoreOp {
    InsertChannel { id: u128, name: Vec<u8> },
    DeleteChannel { id: u128 },
    RenameChannel { id: u128, name: Vec<u8> },
    PutMember { channel: u128, lodestone_id: u64, rank: Rank },
    RemoveMember { channel: u128, lodestone_id: u64 },
    PutInvite { channel: u128, invited: u64, inviter: u64 },
    RemoveInvite { channel: u128, invited: u64 },
    PutUser { lodestone_id: u64 },
    RemoveUser { lodestone_id: u64 },
    PutVerification { lodestone_id: u64 },
    RemoveVerification { lodestone_id: u64 },
}

/// The relational state: channels with their memberships and invites,
/// users, and registration challenges.
pub struct Store {
    pub channels: HashMap<u128, ChannelRecord>,
    /// every channel id once, in creation order
    pub channel_ids: Vec<u128>,
    pub users: HashMap<u64, UserRow>,
    /// every user id once
    pub user_ids: Vec<u64>,
    pub verifications: HashMap<u64, Verification>,
    pub journal: Vec<StoreOp>,
}

/// `Some(m[k])` where `m` holds `k`, else `None`.
pub open spec fn lookup<K, V>(m: Map<K, V>, k: K) -> Option<V> {
    if m.contains_key(k) {
        Some(m[k])
    } else {
        None
    }
}

impl ChannelRecord {
    /// No one is both a member and an invitee, and no member holds `Invited`.
    pub open spec fn wf(&self) -> bool {
        &&& forall|u: u64|
            !(#[trigger] self.members@.contains_key(u) && self.invites@.contains_key(u))
        &&& forall|u: u64| #[trigger]
            self.members@.contains_key(u) ==> self.members@[u] != Rank::Invited
    }

    /// Some member holds `Admin`.
    pub open spec fn has_admin(&self) -> bool {
        exists|u: u64| #[trigger]
            self.members@.contains_key(u) && self.members@[u] == Rank::Admin
    }
}

/// Removing one entry of a sequence without repeats drops exactly that value.
pub proof fn lemma_remove_distinct<A>(s: Seq<A>, k: int)
    requires
        s.no_duplicates(),
        0 <= k < s.len(),
    ensures
        s.remove(k).no_duplicates(),
        forall|x: A| s.remove(k).contains(x) <==> (s.contains(x) && x != s[k]),
{
    let t = s.remove(k);
    assert forall|i: int, j: int| 0 <= i < t.len() && 0 <= j < t.len() && i != j implies t[i]
        != t[j] by {
        let i2 = if i < k { i } else { i + 1 };
        let j2 = if j < k { j } else { j + 1 };
        assert(t[i] == s[i2] && t[j] == s[j2]);
    }
    assert forall|x: A| t.contains(x) <==> (s.contains(x) && x != s[k]) by {
        if t.contains(x) {
            let i = choose|i: int| 0 <= i < t.len() && t[i] == x;
            let i2 = if i < k { i } else { i + 1 };
            assert(s[i2] == x);
        }
        if s.contains(x) && x != s[k] {
            let i = choose|i: int| 0 <= i < s.len() && s[i] == x;
            if i < k {
                assert(t[i] == x);
            } else {
                assert(i != k);
                assert(t[i - 1] == x);
            }
        }
    }
}

fn position_u128(v: &Vec<u128>, x: u128) -> (r: Option<usize>)
    ensures
        match r {
            Some(i) => i < v@.len() && v@[i as int] == x,
            None => !v@.contains(x),
        },
{
    let mut i: usize = 0;
    while i < v.len()
        invariant
            i <= v@.len(),
            forall|j: int| 0 <= j < i ==> v@[j] != x,
        decreases v@.len() - i,
    {
        if v[i] == x {
            return Some(i);
        }
        i = i + 1;
    }
    None
}

pub(crate) fn position_u64(v: &Vec<u64>, x: u64) -> (r: Option<usize>)
    ensures
        match r {
            Some(i) => i < v@.len() && v@[i as int] == x,
            None => !v@.contains(x),
        },
{
    let mut i: usize = 0;
    while i < v.len()
        invariant
            i <= v@.len(),
            forall|j: int| 0 <= j < i ==> v@[j] != x,
        decreases v@.len() - i,
    {
        if v[i] == x {
            return Some(i);
        }
        i = i + 1;
    }
    None
}

impl Store {
    /// The tables' own invariant: the id lists index the maps exactly, and
    /// every channel keeps members and invitees apart.
    pub open spec fn wf(&self) -> bool {
        &&& self.channel_ids@.no_duplicates()
        &&& forall|c: u128| self.channel_ids@.contains(c) <==> #[trigger] self.channels@.contains_key(c)
        &&& self.user_ids@.no_duplicates()
        &&& forall|u: u64| self.user_ids@.contains(u) <==> #[trigger] self.users@.contains_key(u)
        &&& forall|u: u64| #[trigger] self.users@.contains_key(u) ==> self.users@[u].lodestone_id == u
        &&& forall|c: u128| #[trigger] self.channels@.contains_key(c) ==> self.channels@[c].wf()
        &&& self.keys_unique()
        &&& self.participants_registered()
    }

    /// No two users share an API key (short token and hash together).
    pub open spec fn keys_unique(&self) -> bool {
        forall|u1: u64, u2: u64| #![trigger self.users@[u1], self.users@[u2]]
            self.users@.contains_key(u1) && self.users@.contains_key(u2) && u1 != u2 ==> !(
            self.users@[u1].key_short@ == self.users@[u2].key_short@
                && self.users@[u1].key_hash@ == self.users@[u2].key_hash@)
    }

    /// A user other than `id` holds the key with this short token and hash.
    pub open spec fn key_taken(&self, id: u64, short: Seq<char>, hash: Seq<char>) -> bool {
        exists|v: u64| #[trigger] self.users@.contains_key(v) && v != id && self.users@[v].key_short@ == short
            && self.users@[v].key_hash@ == hash
    }

    /// No user but `row`'s own holds `row`'s API key.
    pub open spec fn key_free(&self, row: UserRow) -> bool {
        forall|v: u64| #[trigger] self.users@.contains_key(v) && v != row.lodestone_id ==> !(
            self.users@[v].key_short@ == row.key_short@ && self.users@[v].key_hash@ == row.key_hash@)
    }

    /// Every member and every invitee of a channel is a registered user.
    pub open spec fn participants_registered(&self) -> bool {
        &&& forall|c: u128, u: u64| #![trigger self.channels@[c].members@.contains_key(u)]
            self.channels@.contains_key(c) && self.channels@[c].members@.contains_key(u) ==> self.users@.contains_key(u)
        &&& forall|c: u128, u: u64| #![trigger self.channels@[c].invites@.contains_key(u)]
            self.channels@.contains_key(c) && self.channels@[c].invites@.contains_key(u) ==> self.users@.contains_key(u)
    }

    /// Every channel has at least one admin.
    pub open spec fn admins_ok(&self) -> bool {
        forall|c: u128| #[trigger] self.channels@.contains_key(c) ==> self.channels@[c].has_admin()
    }

    pub open spec fn has_channel(&self, c: u128) -> bool {
        self.channels@.contains_key(c)
    }

    /// The members of a channel with their ranks (empty for no channel).
    pub open spec fn members_of(&self, c: u128) -> Map<u64, Rank> {
        if self.channels@.contains_key(c) {
            self.channels@[c].members@
        } else {
            Map::empty()
        }
    }

    /// The invitees of a channel, each with who invited them.
    pub open spec fn invites_of(&self, c: u128) -> Map<u64, u64> {
        if self.channels@.contains_key(c) {
            self.channels@[c].invites@
        } else {
            Map::empty()
        }
    }

    pub open spec fn name_of(&self, c: u128) -> Seq<u8> {
        self.channels@[c].name@
    }

    /// A member or an invitee of the channel.
    pub open spec fn is_participant(&self, c: u128, u: u64) -> bool {
        self.members_of(c).contains_key(u) || self.invites_of(c).contains_key(u)
    }

    /// Every channel but `c` has at least one admin.
    pub open spec fn admins_ok_except(&self, c: u128) -> bool {
        forall|c2: u128| c2 != c && #[trigger] self.channels@.contains_key(c2) ==> self.channels@[c2].has_admin()
    }

    /// Some member of `c` other than `u` is an admin.
    pub open spec fn other_admin(&self, c: u128, u: u64) -> bool {
        exists|w: u64| w != u && #[trigger] self.members_of(c).contains_key(w) && self.members_of(c)[w] == Rank::Admin
    }

    /// Everything but channel `c` is as in `old`.
    pub open spec fn same_except(&self, old: &Store, c: u128) -> bool {
        &&& forall|c2: u128| c2 != c ==> (#[trigger] self.channels@.contains_key(c2)
            <==> old.channels@.contains_key(c2))
        &&& forall|c2: u128| c2 != c && #[trigger] self.channels@.contains_key(c2)
            ==> self.channels@[c2] == old.channels@[c2]
        &&& self.users@ == old.users@
        &&& self.verifications@ == old.verifications@
    }

    pub fn new() -> (r: Store)
        ensures
            r.wf(),
            r.admins_ok(),
            r.channels@ == Map::<u128, ChannelRecord>::empty(),
            r.users@ == Map::<u64, UserRow>::empty(),
            r.verifications@ == Map::<u64, Verification>::empty(),
    {
        Store {
            channels: HashMap::new(),
            channel_ids: Vec::new(),
            users: HashMap::new(),
            user_ids: Vec::new(),
            verifications: HashMap::new(),
            journal: Vec::new(),
        }
    }

    pub fn contains_channel(&self, c: u128) -> (r: bool)
        ensures
            r == self.has_channel(c),
    {
        self.channels.contains_key(&c)
    }

    /// The caller's rank in a channel: `None` unless they are a member.
    pub fn rank_of(&self, c: u128, u: u64) -> (r: Option<Rank>)
        ensures
            r == lookup(self.members_of(c), u),
    {
        match self.channels.get(&c) {
            Some(rec) => match rec.members.get(&u) {
                Some(r) => Some(*r),
                None => None,
            },
            None => None,
        }
    }

    pub fn is_invited(&self, c: u128, u: u64) -> (r: bool)
        ensures
            r == self.invites_of(c).contains_key(u),
    {
        match self.channels.get(&c) {
            Some(rec) => rec.invites.contains_key(&u),
            None => false,
        }
    }

    /// The rank of a member, or `Invited` for an invitee, or `None`.
    pub fn rank_or_invite(&self, c: u128, u: u64) -> (r: Option<Rank>)
        requires
            self.wf(),
        ensures
            r == (if self.members_of(c).contains_key(u) {
                Some(self.members_of(c)[u])
            } else if self.invites_of(c).contains_key(u) {
                Some(Rank::Invited)
            } else {
                None
            }),
            r is Some <==> self.is_participant(c, u),
    {
        match self.rank_of(c, u) {
            Some(r) => Some(r),
            None => if self.is_invited(c, u) {
                Some(Rank::Invited)
            } else {
                None
            },
        }
    }

    pub fn member_count(&self, c: u128) -> (r: usize)
        ensures
            r == self.members_of(c).len(),
    {
        match self.channels.get(&c) {
            Some(rec) => rec.members.len(),
            None => 0,
        }
    }

    /// Adds an empty channel with the given opaque name.
    pub fn insert_channel(&mut self, c: u128, name: Vec<u8>)
        requires
            old(self).wf(),
            !old(self).has_channel(c),
        ensures
            final(self).wf(),
            final(self).same_except(old(self), c),
            final(self).has_channel(c),
            final(self).members_of(c).is_empty(),
            final(self).invites_of(c).is_empty(),
            final(self).name_of(c) == name@,
            old(self).admins_ok() ==> final(self).admins_ok_except(c),
            final(self).journal@ == old(self).journal@.push(StoreOp::InsertChannel { id: c, name }),
    {
        let rec = ChannelRecord { name: name.clone(), members: HashMap::new(), invites: HashMap::new() };
        self.channels.insert(c, rec);
        self.channel_ids.push(c);
        self.journal.push(StoreOp::InsertChannel { id: c, name });
        proof {
            assert forall|x: u128| self.channel_ids@.contains(x) <==> self.channels@.contains_key(x) by {
                if x != c && old(self).channel_ids@.contains(x) {
                    let i = choose|i: int| 0 <= i < old(self).channel_ids@.len() && old(self).channel_ids@[i] == x;
                    assert(self.channel_ids@[i] == x);
                }
                if self.channel_ids@.contains(x) && x != c {
                    let i = choose|i: int| 0 <= i < self.channel_ids@.len() && self.channel_ids@[i] == x;
                    assert(old(self).channel_ids@[i] == x);
                }
                assert(self.channel_ids@[self.channel_ids@.len() - 1] == c);
            }
            assert(self.members_of(c) =~= Map::empty());
            assert(self.invites_of(c) =~= Map::empty());
        }
    }

    /// Removes a channel with all of its memberships and invites.
    pub fn delete_channel(&mut self, c: u128)
        requires
            old(self).wf(),
        ensures
            final(self).wf(),
            final(self).same_except(old(self), c),
            !final(self).has_channel(c),
            old(self).admins_ok() ==> final(self).admins_ok(),
            final(self).journal@ == if old(self).has_channel(c) {
                old(self).journal@.push(StoreOp::DeleteChannel { id: c })
            } else {
                old(self).journal@
            },
    {
        if let Some(k) = position_u128(&self.channel_ids, c) {
            proof {
                lemma_remove_distinct(self.channel_ids@, k as int);
            }
            self.channel_ids.remove(k);
            self.channels.remove(&c);
            self.journal.push(StoreOp::DeleteChannel { id: c });
        }
    }

    /// Replaces the opaque name of an existing channel.
    pub fn rename_channel(&mut self, c: u128, name: Vec<u8>)
        requires
            old(self).wf(),
            old(self).has_channel(c),
        ensures
            final(self).wf(),
            final(self).same_except(old(self), c),
            final(self).has_channel(c),
            final(self).members_of(c) == old(self).members_of(c),
            final(self).invites_of(c) == old(self).invites_of(c),
            final(self).name_of(c) == name@,
            old(self).admins_ok() ==> final(self).admins_ok(),
            final(self).journal@ == old(self).journal@.push(StoreOp::RenameChannel { id: c, name }),
    {
        let mut rec = self.channels.remove(&c).unwrap();
        rec.name = name.clone();
        self.channels.insert(c, rec);
        self.journal.push(StoreOp::RenameChannel { id: c, name });
    }

    /// Makes `u` a member of `c` with `rank`, or changes the rank it has.
    pub fn put_member(&mut self, c: u128, u: u64, rank: Rank)
        requires
            old(self).users@.contains_key(u),
            old(self).wf(),
            old(self).has_channel(c),
            !old(self).invites_of(c).contains_key(u),
            rank != Rank::Invited,
        ensures
            final(self).wf(),
            final(self).same_except(old(self), c),
            final(self).has_channel(c),
            final(self).members_of(c) == old(self).members_of(c).insert(u, rank),
            final(self).invites_of(c) == old(self).invites_of(c),
            final(self).name_of(c) == old(self).name_of(c),
            old(self).admins_ok() && (rank == Rank::Admin || lookup(old(self).members_of(c), u) != Some(Rank::Admin)
                || old(self).other_admin(c, u)) ==> final(self).admins_ok(),
            rank == Rank::Admin && old(self).admins_ok_except(c) ==> final(self).admins_ok(),
            final(self).journal@ == old(self).journal@.push(StoreOp::PutMember { channel: c, lodestone_id: u, rank }),
    {
        let mut rec = self.channels.remove(&c).unwrap();
        rec.members.insert(u, rank);
        self.channels.insert(c, rec);
        self.journal.push(StoreOp::PutMember { channel: c, lodestone_id: u, rank });
        proof {
            if rank == Rank::Admin && old(self).admins_ok_except(c) {
                assert forall|c2: u128| #[trigger] self.channels@.contains_key(c2) implies self.channels@[c2].has_admin() by {
                    if c2 == c {
                        assert(self.channels@[c].members@.contains_key(u));
                    }
                }
            }
            if old(self).admins_ok() && (rank == Rank::Admin || lookup(old(self).members_of(c), u) != Some(Rank::Admin)
                || old(self).other_admin(c, u)) {
                assert forall|c2: u128| #[trigger] self.channels@.contains_key(c2) implies self.channels@[c2].has_admin() by {
                    if c2 == c {
                        if rank == Rank::Admin {
                            assert(self.channels@[c].members@.contains_key(u));
                        } else if old(self).other_admin(c, u) {
                            let w = choose|w: u64| w != u && #[trigger] old(self).members_of(c).contains_key(w) && old(self).members_of(c)[w] == Rank::Admin;
                            assert(self.channels@[c].members@.contains_key(w));
                        } else {
                            let w = choose|w: u64| #[trigger] old(self).channels@[c].members@.contains_key(w) && old(self).channels@[c].members@[w] == Rank::Admin;
                            assert(w != u);
                            assert(self.channels@[c].members@.contains_key(w));
                        }
                    }
                }
            }
        }
    }

    /// Ends the membership of `u` in `c`, if any.
    pub fn remove_member(&mut self, c: u128, u: u64)
        requires
            old(self).wf(),
            old(self).has_channel(c),
        ensures
            final(self).wf(),
            final(self).same_except(old(self), c),
            final(self).has_channel(c),
            final(self).members_of(c) == old(self).members_of(c).remove(u),
            final(self).invites_of(c) == old(self).invites_of(c),
            final(self).name_of(c) == old(self).name_of(c),
            old(self).admins_ok() && (lookup(old(self).members_of(c), u) != Some(Rank::Admin)
                || old(self).other_admin(c, u)) ==> final(self).admins_ok(),
            final(self).journal@ == old(self).journal@.push(StoreOp::RemoveMember { channel: c, lodestone_id: u }),
    {
        let mut rec = self.channels.remove(&c).unwrap();
        rec.members.remove(&u);
        self.channels.insert(c, rec);
        self.journal.push(StoreOp::RemoveMember { channel: c, lodestone_id: u });
        proof {
            if old(self).admins_ok() && (lookup(old(self).members_of(c), u) != Some(Rank::Admin)
                || old(self).other_admin(c, u)) {
                assert forall|c2: u128| #[trigger] self.channels@.contains_key(c2) implies self.channels@[c2].has_admin() by {
                    if c2 == c {
                        if old(self).other_admin(c, u) {
                            let w = choose|w: u64| w != u && #[trigger] old(self).members_of(c).contains_key(w) && old(self).members_of(c)[w] == Rank::Admin;
                            assert(self.channels@[c].members@.contains_key(w));
                        } else {
                            let w = choose|w: u64| #[trigger] old(self).channels@[c].members@.contains_key(w) && old(self).channels@[c].members@[w] == Rank::Admin;
                            assert(w != u);
                            assert(self.channels@[c].members@.contains_key(w));
                        }
                    }
                }
            }
        }
    }

    /// Records that `inviter` invited `u` to `c`.
    pub fn put_invite(&mut self, c: u128, u: u64, inviter: u64)
        requires
            old(self).users@.contains_key(u),
            old(self).wf(),
            old(self).has_channel(c),
            !old(self).members_of(c).contains_key(u),
        ensures
            final(self).wf(),
            final(self).same_except(old(self), c),
            final(self).has_channel(c),
            final(self).members_of(c) == old(self).members_of(c),
            final(self).invites_of(c) == old(self).invites_of(c).insert(u, inviter),
            final(self).name_of(c) == old(self).name_of(c),
            old(self).admins_ok() ==> final(self).admins_ok(),
            final(self).journal@ == old(self).journal@.push(StoreOp::PutInvite { channel: c, invited: u, inviter }),
    {
        let mut rec = self.channels.remove(&c).unwrap();
        rec.invites.insert(u, inviter);
        self.channels.insert(c, rec);
        self.journal.push(StoreOp::PutInvite { channel: c, invited: u, inviter });
        proof {
            if old(self).admins_ok() {
                assert forall|c2: u128| #[trigger] self.channels@.contains_key(c2) implies self.channels@[c2].has_admin() by {
                    if c2 == c {
                        let w = choose|w: u64| #[trigger] old(self).channels@[c].members@.contains_key(w) && old(self).channels@[c].members@[w] == Rank::Admin;
                        assert(self.channels@[c].members@.contains_key(w));
                    }
                }
            }
        }
    }

    /// Deletes the invite of `u` to `c` and says whether there was one.
    pub fn take_invite(&mut self, c: u128, u: u64) -> (r: bool)
        requires
            old(self).wf(),
        ensures
            final(self).wf(),
            final(self).same_except(old(self), c),
            final(self).has_channel(c) == old(self).has_channel(c),
            r == old(self).invites_of(c).contains_key(u),
            final(self).channel_ids@ == old(self).channel_ids@,
            final(self).user_ids@ == old(self).user_ids@,
            final(self).members_of(c) == old(self).members_of(c),
            final(self).invites_of(c) == old(self).invites_of(c).remove(u),
            old(self).has_channel(c) ==> final(self).name_of(c) == old(self).name_of(c),
            old(self).admins_ok() ==> final(self).admins_ok(),
            !r ==> *final(self) == *old(self),
            r ==> final(self).journal@ == old(self).journal@.push(StoreOp::RemoveInvite { channel: c, invited: u }),
    {
        if !self.is_invited(c, u) {
            proof {
                assert(self.invites_of(c) =~= self.invites_of(c).remove(u));
            }
            return false;
        }
        let mut rec = self.channels.remove(&c).unwrap();
        let had = rec.invites.remove(&u);
        self.channels.insert(c, rec);
        self.journal.push(StoreOp::RemoveInvite { channel: c, invited: u });
        proof {
            if old(self).admins_ok() {
                assert forall|c2: u128| #[trigger] self.channels@.contains_key(c2) implies self.channels@[c2].has_admin() by {
                    if c2 == c {
                        let w = choose|w: u64| #[trigger] old(self).channels@[c].members@.contains_key(w) && old(self).channels@[c].members@[w] == Rank::Admin;
                        assert(self.channels@[c].members@.contains_key(w));
                    }
                }
            }
        }
        had.is_some()
    }

    /// How many channels `u` is a member of.
    pub fn membership_count(&self, u: u64) -> (r: usize)
        requires
            self.wf(),
        ensures
            r == 0 <==> forall|c: u128| !#[trigger] self.members_of(c).contains_key(u),
    {
        let mut n: usize = 0;
        let mut i: usize = 0;
        while i < self.channel_ids.len()
            invariant
                self.wf(),
                i <= self.channel_ids@.len(),
                n <= i,
                n == 0 <==> forall|j: int| 0 <= j < i ==> !self.members_of(#[trigger] self.channel_ids@[j]).contains_key(u),
            decreases self.channel_ids@.len() - i,
        {
            let c = self.channel_ids[i];
            assert(self.channel_ids@.contains(c));
            if self.channels.get(&c).unwrap().members.contains_key(&u) {
                n = n + 1;
            }
            i = i + 1;
        }
        proof {
            assert forall|c: u128| n == 0 implies !#[trigger] self.members_of(c).contains_key(u) by {
                if self.members_of(c).contains_key(u) {
                    assert(self.channel_ids@.contains(c));
                    let j = choose|j: int| 0 <= j < self.channel_ids@.len() && self.channel_ids@[j] == c;
                    assert(!self.members_of(self.channel_ids@[j]).contains_key(u));
                }
            }
        }
        n
    }
    pub fn user(&self, u: u64) -> (r: Option<&UserRow>)
        ensures
            match r {
                Some(row) => self.users@.contains_key(u) && *row == self.users@[u],
                None => !self.users@.contains_key(u),
            },
    {
        self.users.get(&u)
    }

    /// The user whose API key has this short token and long-token hash.
    pub fn find_user_by_key(&self, short: &String, hash: &String) -> (r: Option<u64>)
        requires
            self.wf(),
        ensures
            match r {
                Some(u) => self.users@.contains_key(u) && self.users@[u].key_short@ == short@
                    && self.users@[u].key_hash@ == hash@,
                None => forall|u: u64| #[trigger] self.users@.contains_key(u) ==> !(
                    self.users@[u].key_short@ == short@ && self.users@[u].key_hash@ == hash@),
            },
    {
        let mut i: usize = 0;
        while i < self.user_ids.len()
            invariant
                self.wf(),
                i <= self.user_ids@.len(),
                forall|j: int| 0 <= j < i ==> !(self.users@[#[trigger] self.user_ids@[j]].key_short@ == short@
                    && self.users@[self.user_ids@[j]].key_hash@ == hash@),
            decreases self.user_ids@.len() - i,
        {
            let u = self.user_ids[i];
            assert(self.user_ids@.contains(u));
            let row = self.users.get(&u).unwrap();
            if row.key_short == *short && row.key_hash == *hash {
                return Some(u);
            }
            i = i + 1;
        }
        proof {
            assert forall|u: u64| #[trigger] self.users@.contains_key(u) implies !(
                self.users@[u].key_short@ == short@ && self.users@[u].key_hash@ == hash@) by {
                let j = choose|j: int| 0 <= j < self.user_ids@.len() && self.user_ids@[j] == u;
                assert(self.user_ids@[j] == u);
            }
        }
        None
    }

    /// The registered user with this name on this world.
    pub fn find_user_by_name(&self, name: &String, world: World) -> (r: Option<u64>)
        requires
            self.wf(),
        ensures
            match r {
                Some(u) => self.users@.contains_key(u) && self.users@[u].name@ == name@
                    && self.users@[u].world == world,
                None => forall|u: u64| #[trigger] self.users@.contains_key(u) ==> !(
                    self.users@[u].name@ == name@ && self.users@[u].world == world),
            },
    {
        let mut i: usize = 0;
        while i < self.user_ids.len()
            invariant
                self.wf(),
                i <= self.user_ids@.len(),
                forall|j: int| 0 <= j < i ==> !(self.users@[#[trigger] self.user_ids@[j]].name@ == name@
                    && self.users@[self.user_ids@[j]].world == world),
            decreases self.user_ids@.len() - i,
        {
            let u = self.user_ids[i];
            assert(self.user_ids@.contains(u));
            let row = self.users.get(&u).unwrap();
            if row.name == *name && row.world == world {
                return Some(u);
            }
            i = i + 1;
        }
        proof {
            assert forall|u: u64| #[trigger] self.users@.contains_key(u) implies !(
                self.users@[u].name@ == name@ && self.users@[u].world == world) by {
                let j = choose|j: int| 0 <= j < self.user_ids@.len() && self.user_ids@[j] == u;
                assert(self.user_ids@[j] == u);
            }
        }
        None
    }

    /// Inserts a user row, or replaces the one with the same id.
    pub fn put_user(&mut self, row: UserRow)
        requires
            old(self).key_free(row),
            old(self).wf(),
        ensures
            final(self).wf(),
            final(self).users@ == old(self).users@.insert(row.lodestone_id, row),
            final(self).channels@ == old(self).channels@,
            final(self).verifications@ == old(self).verifications@,
            final(self).journal@ == old(self).journal@.push(StoreOp::PutUser { lodestone_id: row.lodestone_id }),
    {
        let u = row.lodestone_id;
        if !self.users.contains_key(&u) {
            self.user_ids.push(u);
        }
        self.users.insert(u, row);
        self.journal.push(StoreOp::PutUser { lodestone_id: u });
        proof {
            assert forall|x: u64| self.user_ids@.contains(x) <==> self.users@.contains_key(x) by {
                if x != u && old(self).user_ids@.contains(x) {
                    let i = choose|i: int| 0 <= i < old(self).user_ids@.len() && old(self).user_ids@[i] == x;
                    assert(self.user_ids@[i] == x);
                }
                if self.user_ids@.contains(x) && x != u {
                    let i = choose|i: int| 0 <= i < self.user_ids@.len() && self.user_ids@[i] == x;
                    if i < old(self).user_ids@.len() {
                        assert(old(self).user_ids@[i] == x);
                    }
                }
                if !old(self).users@.contains_key(u) {
                    assert(self.user_ids@[self.user_ids@.len() - 1] == u);
                }
            }
        }
    }

    /// Stores a refreshed name and world for an existing user.
    pub fn refresh_user(&mut self, u: u64, name: String, world: World, now: i64)
        requires
            old(self).wf(),
        ensures
            final(self).wf(),
            final(self).users@.dom() == old(self).users@.dom(),
            old(self).users@.contains_key(u) ==> ({
                let row = final(self).users@[u];
                &&& row.name@ == name@
                &&& row.world == world
                &&& row.last_updated == now
                &&& row.key_short == old(self).users@[u].key_short
                &&& row.key_hash == old(self).users@[u].key_hash
            }),
            forall|v: u64| v != u ==> #[trigger] final(self).users@.get(v) == old(self).users@.get(v),
            final(self).channels@ == old(self).channels@,
            final(self).verifications@ == old(self).verifications@,
    {
        if let Some(mut row) = self.users.remove(&u) {
            row.name = name;
            row.world = world;
            row.last_updated = now;
            self.users.insert(u, row);
            self.journal.push(StoreOp::PutUser { lodestone_id: u });
            proof {
                assert(self.users@ =~= old(self).users@.insert(u, row));
            }
        }
        proof {
            assert(self.users@.dom() =~= old(self).users@.dom());
        }
    }

    /// Deletes a user with their pending invites and registration challenge.
    pub fn delete_user(&mut self, u: u64)
        requires
            forall|c: u128| !#[trigger] old(self).members_of(c).contains_key(u),
            old(self).wf(),
        ensures
            final(self).wf(),
            final(self).users@ == old(self).users@.remove(u),
            final(self).verifications@ == old(self).verifications@.remove(u),
            final(self).channels@.dom() == old(self).channels@.dom(),
            forall|c: u128| #[trigger] final(self).members_of(c) == old(self).members_of(c),
            forall|c: u128| #[trigger] final(self).invites_of(c) == old(self).invites_of(c).remove(u),
            old(self).admins_ok() ==> final(self).admins_ok(),
    {
        let mut i: usize = 0;
        while i < self.channel_ids.len()
            invariant
                self.wf(),
                self.channel_ids@ == old(self).channel_ids@,
                self.channels@.dom() == old(self).channels@.dom(),
                self.users@ == old(self).users@,
                self.verifications@ == old(self).verifications@,
                i <= self.channel_ids@.len(),
                forall|c: u128| #[trigger] self.members_of(c) == old(self).members_of(c),
                forall|j: int| 0 <= j < i ==> self.invites_of(#[trigger] self.channel_ids@[j]) == old(self).invites_of(self.channel_ids@[j]).remove(u),
                forall|c: u128| !self.channel_ids@.subrange(0, i as int).contains(c) ==> #[trigger] self.invites_of(c) == old(self).invites_of(c),
                old(self).admins_ok() ==> self.admins_ok(),
            decreases self.channel_ids@.len() - i,
        {
            let c = self.channel_ids[i];
            let ghost before = *self;
            self.take_invite(c, u);
            proof {
                assert(self.channel_ids@ == before.channel_ids@);
                assert forall|c2: u128| #[trigger] self.members_of(c2) == old(self).members_of(c2) by {
                    if c2 != c {
                        assert(before.members_of(c2) == self.members_of(c2));
                    }
                }
                assert forall|j: int| 0 <= j < i + 1 implies self.invites_of(#[trigger] self.channel_ids@[j]) == old(self).invites_of(self.channel_ids@[j]).remove(u) by {
                    if j < i {
                        assert(self.channel_ids@[j] != c) by {
                            assert(self.channel_ids@.no_duplicates());
                        }
                        assert(self.invites_of(self.channel_ids@[j]) == before.invites_of(self.channel_ids@[j]));
                    } else {
                        assert(!self.channel_ids@.subrange(0, i as int).contains(c)) by {
                            if self.channel_ids@.subrange(0, i as int).contains(c) {
                                let k = choose|k: int| 0 <= k < i && self.channel_ids@.subrange(0, i as int)[k] == c;
                                assert(self.channel_ids@[k] == c);
                            }
                        }
                    }
                }
                assert forall|c2: u128| !self.channel_ids@.subrange(0, i + 1).contains(c2) implies #[trigger] self.invites_of(c2) == old(self).invites_of(c2) by {
                    assert(c2 != c) by {
                        assert(self.channel_ids@.subrange(0, i + 1)[i as int] == c);
                    }
                    if self.channel_ids@.subrange(0, i as int).contains(c2) {
                        let k = choose|k: int| 0 <= k < i && self.channel_ids@.subrange(0, i as int)[k] == c2;
                        assert(self.channel_ids@.subrange(0, i + 1)[k] == c2);
                    }
                    assert(before.invites_of(c2) == old(self).invites_of(c2));
                    assert(self.invites_of(c2) == before.invites_of(c2));
                }
            }
            i = i + 1;
        }
        proof {
            assert forall|c: u128| #[trigger] self.invites_of(c) == old(self).invites_of(c).remove(u) by {
                if self.channel_ids@.contains(c) {
                    let j = choose|j: int| 0 <= j < self.channel_ids@.len() && self.channel_ids@[j] == c;
                    assert(self.invites_of(self.channel_ids@[j]) == old(self).invites_of(self.channel_ids@[j]).remove(u));
                } else {
                    assert(self.channel_ids@.subrange(0, i as int) =~= self.channel_ids@);
                    assert(!self.channels@.contains_key(c));
                    assert(old(self).invites_of(c) =~= old(self).invites_of(c).remove(u));
                }
            }
        }
        let ghost after_loop = *self;
        if let Some(k) = position_u64(&self.user_ids, u) {
            proof {
                lemma_remove_distinct(self.user_ids@, k as int);
            }
            self.user_ids.remove(k);
            self.users.remove(&u);
            self.journal.push(StoreOp::RemoveUser { lodestone_id: u });
        }
        proof {
            assert(self.users@ =~= old(self).users@.remove(u));
            assert forall|c: u128, v: u64| self.channels@.contains_key(c) && #[trigger] self.channels@[c].members@.contains_key(v)
                implies self.users@.contains_key(v) by {
                assert(self.channels@ == after_loop.channels@);
                assert(after_loop.members_of(c) == old(self).members_of(c));
                assert(old(self).members_of(c).contains_key(v));
            }
            assert forall|c: u128, v: u64| self.channels@.contains_key(c) && #[trigger] self.channels@[c].invites@.contains_key(v)
                implies self.users@.contains_key(v) by {
                assert(self.channels@ == after_loop.channels@);
                assert(after_loop.invites_of(c) == old(self).invites_of(c).remove(u));
                assert(old(self).channels@.contains_key(c));
                assert(old(self).invites_of(c).contains_key(v));
            }
        }
        let ghost mid = *self;
        self.remove_verification(u);
        proof {
            assert forall|c: u128| #[trigger] self.members_of(c) == old(self).members_of(c) by {
                assert(self.channels@ == after_loop.channels@);
                assert(self.members_of(c) == after_loop.members_of(c));
                assert(after_loop.members_of(c) == old(self).members_of(c));
            }
        }
    }

    pub fn verification(&self, u: u64) -> (r: Option<&Verification>)
        ensures
            match r {
                Some(v) => self.verifications@.contains_key(u) && *v == self.verifications@[u],
                None => !self.verifications@.contains_key(u),
            },
    {
        self.verifications.get(&u)
    }

    /// Stores a fresh registration challenge for `u`, replacing any older one.
    pub fn put_verification(&mut self, u: u64, challenge: String, now: i64)
        requires
            old(self).wf(),
        ensures
            final(self).wf(),
            final(self).verifications@ == old(self).verifications@.insert(
                u,
                Verification { challenge, created_at: now },
            ),
            final(self).channels@ == old(self).channels@,
            final(self).users@ == old(self).users@,
            final(self).journal@ == old(self).journal@.push(StoreOp::PutVerification { lodestone_id: u }),
    {
        self.verifications.insert(u, Verification { challenge, created_at: now });
        self.journal.push(StoreOp::PutVerification { lodestone_id: u });
    }

    pub fn remove_verification(&mut self, u: u64)
        requires
            old(self).wf(),
        ensures
            final(self).wf(),
            final(self).verifications@ == old(self).verifications@.remove(u),
            final(self).channels@ == old(self).channels@,
            final(self).users@ == old(self).users@,
            final(self).journal@ == old(self).journal@.push(StoreOp::RemoveVerification { lodestone_id: u }),
    {
        self.verifications.remove(&u);
        self.journal.push(StoreOp::RemoveVerification { lodestone_id: u });
    }
}

} // verus!
