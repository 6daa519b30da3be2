use vstd::prelude::*;

use crate::bridge::{count_char, key_text, underscores};
use crate::protocol::{
    AuthenticateRequest, AuthenticateResponse,
    CreateRequest, DisbandRequest, DisbandResponse, InviteRequest, JoinRequest, LeaveRequest, MemberChangeKind,
    MemberChangeResponse, PromoteRequest, ResponseKind,
};
use crate::rank::Rank;
use crate::registry::identity_of;
use crate::registry::Registry;
use crate::server::{member_entry, member_list, shows_as, Delivery, Outcome, State};
use crate::store::Store;
use crate::world::world_id;

verus! {

/// Every session that the registry holds under an identity is logged in as
/// that identity.
pub proof fn law_registry_identity(s: &State, k: u64)
    requires
        s.wf(),
        s.registry.clients@.contains_key(k),
    ensures
        s.registry.sessions@.contains_key(s.registry.clients@[k]),
        identity_of(s.registry.sessions@[s.registry.clients@[k]]) == Some(k),
{
}

/// Every channel has at least one admin.
pub proof fn law_channel_has_admin(s: &State, c: u128)
    requires
        s.wf(),
        s.store.has_channel(c),
    ensures
        exists|u: u64| #[trigger] s.store.members_of(c).contains_key(u) && s.store.members_of(c)[u] == Rank::Admin,
{
    assert(s.store.channels@[c].has_admin());
    let w = choose|w: u64| #[trigger] s.store.channels@[c].members@.contains_key(w) && s.store.channels@[c].members@[w] == Rank::Admin;
    assert(s.store.members_of(c).contains_key(w));
}

/// Nobody is both a member of a channel and invited to it.
pub proof fn law_member_or_invitee(s: &State, c: u128, u: u64)
    requires
        s.wf(),
    ensures
        !(s.store.members_of(c).contains_key(u) && s.store.invites_of(c).contains_key(u)),
{
    if s.store.has_channel(c) {
        assert(s.store.channels@[c].wf());
    }
}

/// A successful invite hands the channel secret only to a session that
/// accepts invites.
pub proof fn law_invite_needs_consent(old: State, new: State, x: u64, req: InviteRequest, y: Option<u64>, r: Outcome)
    requires
        old.invitable(req.name@, req.world, y),
        State::invite_post(&old, &new, x, req, y, r),
        r.reply matches Some(ResponseKind::Invite(_)),
    ensures
        y is Some,
        old.registry.sessions@[y->Some_0].allow_invites,
        r.deliveries@[1].conns@ == seq![y->Some_0],
{
}

/// No public key is handed out while every session shown under that name
/// refuses invites.
pub proof fn law_public_key_needs_consent(s: State, req: crate::protocol::PublicKeyRequest, r: Outcome)
    requires
        State::public_key_post(&s, req, r),
        forall|y: u64| #[trigger] s.registry.sessions@.contains_key(y) && shows_as(s.registry.sessions@[y], req.name@, req.world)
            ==> !s.registry.sessions@[y].allow_invites,
    ensures
        r.reply matches Some(ResponseKind::PublicKey(p)) && p.pk is None,
{
}

/// A fan-out reaches the session of every online participant exactly once,
/// and no other session.
pub proof fn law_fan_out_once(s: State, d: Delivery, c: u128, kind: ResponseKind, k: u64)
    requires
        s.wf(),
        s.delivers(d, c, kind),
        s.registry.clients@.contains_key(k),
        s.store.is_participant(c, k),
    ensures
        d.conns@.contains(s.registry.clients@[k]),
        forall|i: int, j: int| 0 <= i < d.conns@.len() && 0 <= j < d.conns@.len()
            && d.conns@[i] == s.registry.clients@[k] && d.conns@[j] == s.registry.clients@[k] ==> i == j,
        forall|i: int| 0 <= i < d.conns@.len() ==> s.reaches(c, #[trigger] d.conns@[i]),
{
    assert(s.registry.reaches(&s.store, c, s.registry.clients@[k]));
    assert(s.reaches(c, s.registry.clients@[k]));
    assert forall|i: int| 0 <= i < d.conns@.len() implies s.reaches(c, #[trigger] d.conns@[i]) by {
        assert(d.conns@.contains(d.conns@[i]));
    }
}

/// In a channel whose only member is its admin, inviting a registered user
/// who then joins and leaves again leaves the admin alone, with no invite left over.
pub proof fn law_invite_join_leave(
    s0: State,
    s1: State,
    s2: State,
    s3: State,
    xa: u64,
    xb: u64,
    inv: InviteRequest,
    r1: Outcome,
    r2: Outcome,
    r3: Outcome,
)
    requires
        s0.wf(),
        s0.logged_in(xa),
        s0.logged_in(xb),
        xa != xb,
        s0.store.users@.contains_key(s0.id_of(xb)),
        s0.store.has_channel(inv.channel),
        s0.store.members_of(inv.channel) == map![s0.id_of(xa) => Rank::Admin],
        s0.store.invites_of(inv.channel).is_empty(),
        State::invite_post(&s0, &s1, xa, inv, Some(xb), r1),
        State::join_post(&s1, &s2, xb, JoinRequest { channel: inv.channel }, r2),
        State::leave_post(&s2, &s3, xb, LeaveRequest { channel: inv.channel }, r3),
    ensures
        r1.reply matches Some(ResponseKind::Invite(_)),
        r2.reply matches Some(ResponseKind::Join(_)),
        s3.store.has_channel(inv.channel),
        s3.store.members_of(inv.channel) == map![s0.id_of(xa) => Rank::Admin],
        s3.store.invites_of(inv.channel).is_empty(),
{
    let c = inv.channel;
    let a = s0.id_of(xa);
    let b = s0.id_of(xb);
    assert(s0.registry.clients@[a] == xa);
    assert(s0.registry.clients@[b] == xb);
    assert(a != b);
    assert(s1.store.invites_of(c) =~= map![b => a]);
    assert(s2.store.members_of(c) =~= map![a => Rank::Admin, b => Rank::Member]);
    assert(s2.store.invites_of(c) =~= Map::empty());
    assert(s2.store.members_of(c).len() == 2) by {
        assert(s2.store.members_of(c).dom() =~= set![a, b]);
    }
    assert(s3.store.members_of(c) =~= map![a => Rank::Admin]);
    assert(s3.store.invites_of(c) =~= Map::empty());
}

/// Declining an invite leaves no trace among the members or the invites.
pub proof fn law_invite_decline(s0: State, s1: State, s2: State, xa: u64, xb: u64, inv: InviteRequest, r1: Outcome, r2: Outcome)
    requires
        s0.wf(),
        s0.logged_in(xa),
        s0.logged_in(xb),
        xa != xb,
        s0.store.users@.contains_key(s0.id_of(xb)),
        s0.store.has_channel(inv.channel),
        s0.store.members_of(inv.channel) == map![s0.id_of(xa) => Rank::Admin],
        s0.store.invites_of(inv.channel).is_empty(),
        State::invite_post(&s0, &s1, xa, inv, Some(xb), r1),
        State::leave_post(&s1, &s2, xb, LeaveRequest { channel: inv.channel }, r2),
    ensures
        s2.store.has_channel(inv.channel),
        s2.store.members_of(inv.channel) == s0.store.members_of(inv.channel),
        s2.store.invites_of(inv.channel).is_empty(),
{
    let c = inv.channel;
    let a = s0.id_of(xa);
    let b = s0.id_of(xb);
    assert(s0.registry.clients@[a] == xa);
    assert(s0.registry.clients@[b] == xb);
    assert(s1.store.invites_of(c) =~= map![b => a]);
    assert(s2.store.members_of(c) =~= s0.store.members_of(c));
    assert(s2.store.invites_of(c) =~= Map::empty());
}

/// Creating a channel and disbanding it tells every participant, deletes
/// the channel, and a later join of that id fails.
pub proof fn law_create_disband_join(
    s0: State,
    s1: State,
    s2: State,
    s3: State,
    xa: u64,
    xb: u64,
    id: u128,
    req: CreateRequest,
    r1: Outcome,
    r2: Outcome,
    r3: Outcome,
)
    requires
        s0.wf(),
        s0.logged_in(xa),
        s0.store.users@.contains_key(s0.id_of(xa)),
        !s0.store.has_channel(id),
        State::create_post(&s0, &s1, xa, id, req, r1),
        State::disband_post(&s1, &s2, xa, DisbandRequest { channel: id }, r2),
        State::join_post(&s2, &s3, xb, JoinRequest { channel: id }, r3),
    ensures
        r2.reply == Some(ResponseKind::Disband(DisbandResponse { channel: id })),
        r2.deliveries@.len() == 1,
        s1.delivers(r2.deliveries@[0], id, ResponseKind::Disband(DisbandResponse { channel: id })),
        !s2.store.has_channel(id),
        r3.is_channel_error(id, "you were not invited to that channel"@),
        s3 == s2,
{
    assert(s1.store.members_of(id).contains_key(s0.id_of(xa)));
}

/// Promoting a member to admin swaps ranks once: the caller becomes a
/// moderator, the target the admin, nobody else changes, and members hear
/// of both changes, the caller's first.
pub proof fn law_promote_swap(s0: State, s1: State, x: u64, req: PromoteRequest, t: Option<u64>, r: Outcome)
    requires
        s0.wf(),
        s0.logged_in(x),
        req.rank == Rank::Admin,
        State::promote_post(&s0, &s1, x, req, t, r),
        r.reply matches Some(ResponseKind::Promote(_)),
    ensures
        t is Some,
        s0.store.members_of(req.channel)[s0.id_of(x)] == Rank::Admin,
        s1.store.members_of(req.channel)[s0.id_of(x)] == Rank::Moderator,
        s1.store.members_of(req.channel)[t->Some_0] == Rank::Admin,
        s1.store.members_of(req.channel).dom() == s0.store.members_of(req.channel).dom(),
        forall|u: u64| u != s0.id_of(x) && u != t->Some_0 && #[trigger] s0.store.members_of(req.channel).contains_key(u)
            ==> s1.store.members_of(req.channel)[u] == s0.store.members_of(req.channel)[u],
        r.deliveries@.len() == 2,
        r.deliveries@[0].message.kind == ResponseKind::MemberChange(MemberChangeResponse {
            channel: req.channel,
            name: s0.user_of(x).name,
            world: world_id(s0.user_of(x).world),
            kind: MemberChangeKind::Promote { rank: Rank::Moderator },
        }),
        r.deliveries@[1].message.kind == ResponseKind::MemberChange(MemberChangeResponse {
            channel: req.channel,
            name: req.name,
            world: req.world,
            kind: MemberChangeKind::Promote { rank: Rank::Admin },
        }),
{
    let c = req.channel;
    let me = s0.id_of(x);
    let target = t->Some_0;
    assert(s0.store.members_of(c).contains_key(target));
    assert(s1.store.members_of(c).dom() =~= s0.store.members_of(c).dom());
}

/// A text without underscores has none at any position.
pub proof fn lemma_no_underscore(t: Seq<char>)
    requires
        underscores(t) == 0,
    ensures
        forall|i: int| 0 <= i < t.len() ==> t[i] != '_',
    decreases t.len(),
{
    if t.len() > 0 {
        lemma_no_underscore(t.drop_last());
        assert forall|i: int| 0 <= i < t.len() implies t[i] != '_' by {
            if i < t.len() - 1 {
                assert(t[i] == t.drop_last()[i]);
            }
        }
    }
}

/// A text with no underscore at any position has none.
pub proof fn lemma_underscore_free(t: Seq<char>)
    requires
        forall|i: int| 0 <= i < t.len() ==> t[i] != '_',
    ensures
        underscores(t) == 0,
    decreases t.len(),
{
    if t.len() > 0 {
        assert forall|i: int| 0 <= i < t.drop_last().len() implies t.drop_last()[i] != '_' by {
            assert(t.drop_last()[i] == t[i]);
        }
        lemma_underscore_free(t.drop_last());
    }
}

/// Underscores of a concatenation add up.
pub proof fn lemma_underscores_concat(a: Seq<char>, b: Seq<char>)
    ensures
        underscores(a + b) == underscores(a) + underscores(b),
    decreases b.len(),
{
    if b.len() > 0 {
        lemma_underscores_concat(a, b.drop_last());
        assert((a + b).drop_last() =~= a + b.drop_last());
        assert((a + b).last() == b.last());
    } else {
        assert(a + b =~= a);
    }
}

/// A key text whose three parts hold no underscore has exactly two.
pub proof fn lemma_key_underscores(p: Seq<char>, sh: Seq<char>, lo: Seq<char>)
    requires
        underscores(p) == 0,
        underscores(sh) == 0,
        underscores(lo) == 0,
    ensures
        underscores(key_text(p, sh, lo)) == 2,
{
    let u = seq!['_'];
    assert(underscores(u) == 1) by {
        assert(u.drop_last() =~= Seq::<char>::empty());
        assert(count_char(u.drop_last(), '_') == 0);
        assert(u.last() == '_');
    }
    lemma_underscores_concat(p, u);
    lemma_underscores_concat(p + u, sh);
    lemma_underscores_concat(p + u + sh, u);
    lemma_underscores_concat(p + u + sh + u, lo);
}

/// A key text splits into its parts in one way only, when no part holds
/// an underscore.
pub proof fn lemma_key_split_unique(
    p1: Seq<char>,
    s1: Seq<char>,
    l1: Seq<char>,
    p2: Seq<char>,
    s2: Seq<char>,
    l2: Seq<char>,
)
    requires
        key_text(p1, s1, l1) == key_text(p2, s2, l2),
        underscores(p1) == 0,
        underscores(s1) == 0,
        underscores(l1) == 0,
        underscores(p2) == 0,
        underscores(s2) == 0,
        underscores(l2) == 0,
    ensures
        p1 == p2,
        s1 == s2,
        l1 == l2,
{
    lemma_no_underscore(p1);
    lemma_no_underscore(s1);
    lemma_no_underscore(p2);
    lemma_no_underscore(s2);
    let t = key_text(p1, s1, l1);
    assert(t[p1.len() as int] == '_');
    assert(t[p2.len() as int] == '_');
    if p1.len() < p2.len() {
        assert(t[p1.len() as int] == p2[p1.len() as int]);
    }
    if p2.len() < p1.len() {
        assert(t[p2.len() as int] == p1[p2.len() as int]);
    }
    assert(p1.len() == p2.len());
    assert(p1 =~= t.subrange(0, p1.len() as int));
    assert(p2 =~= t.subrange(0, p2.len() as int));
    let o: int = p1.len() as int + 1;
    assert(t[o + s1.len()] == '_');
    assert(t[o + s2.len()] == '_');
    if s1.len() < s2.len() {
        assert(t[o + s1.len()] == s2[s1.len() as int]);
    }
    if s2.len() < s1.len() {
        assert(t[o + s2.len()] == s1[s2.len() as int]);
    }
    assert(s1.len() == s2.len());
    assert(s1 =~= t.subrange(o, o + s1.len()));
    assert(s2 =~= t.subrange(o, o + s2.len()));
    let o2: int = o + s1.len() as int + 1;
    assert(l1 =~= t.subrange(o2, t.len() as int));
    assert(l2 =~= t.subrange(o2, t.len() as int));
}

/// A key handed out by registration logs a fresh session in as the user it
/// was issued to.
pub proof fn law_issued_key_logs_in(
    s1: State,
    s2: State,
    x: u64,
    id: u64,
    req: AuthenticateRequest,
    now: i64,
    r: Outcome,
)
    requires
        s1.wf(),
        s1.registry.sessions@.contains_key(x),
        !s1.logged_in(x),
        s1.store.users@.contains_key(id),
        State::issued_key(req.key.value()@, s1.store.users@[id]),
        State::authenticate_post(&s1, &s2, x, req, now, r),
    ensures
        r.reply == Some(ResponseKind::Authenticate(AuthenticateResponse { error: None })),
        s2.registry.clients@.contains_key(id),
        s2.registry.clients@[id] == x,
        s2.registry.sessions@[x].user matches Some(u) && u.lodestone_id == id,
{
    let row = s1.store.users@[id];
    let (sh, lo) = choose|sh: Seq<char>, lo: Seq<char>| #[trigger] key_text("extrachat"@, sh, lo) == req.key.value()@
        && underscores(sh) == 0 && underscores(lo) == 0
        && row.key_short@ == sh && row.key_hash@ == crate::bridge::hex_of(crate::bridge::sha3_256_of(lo));
    assert(underscores("extrachat"@) == 0) by {
        reveal_strlit("extrachat");
        lemma_underscore_free("extrachat"@);
    }
    lemma_key_underscores("extrachat"@, sh, lo);
    assert(State::login_done(&s1, &s2, x, req, now, r));
    let (p2, sh2, lo2) = choose|p: Seq<char>, sh: Seq<char>, lo: Seq<char>| {
        &&& #[trigger] key_text(p, sh, lo) == req.key.value()@
        &&& underscores(p) == 0 && underscores(sh) == 0 && underscores(lo) == 0
        &&& #[trigger] State::login_post(&s1, &s2, x, req, sh, lo, now, r)
    };
    lemma_key_split_unique("extrachat"@, sh, lo, p2, sh2, lo2);
    assert(s1.store.users@.contains_key(id) && s1.store.users@[id].key_short@ == sh2);
    let u = choose|u: u64| {
        let row = #[trigger] s1.store.users@[u];
        &&& s1.store.users@.contains_key(u)
        &&& row.key_short@ == sh2 && row.key_hash@ == crate::bridge::hex_of(crate::bridge::sha3_256_of(lo2))
        &&& s2.store == s1.store
        &&& s2.registry.clients@ == s1.registry.clients@.insert(u, x)
        &&& s2.registry.sessions@[x] == crate::registry::ClientState {
            user: Some(crate::registry::User { lodestone_id: u, name: row.name, world: row.world }),
            pk: req.pk,
            allow_invites: req.allow_invites,
        }
        &&& s2.registry.sessions@.dom() == s1.registry.sessions@.dom()
        &&& r.evict == s1.registry.holder(u)
        &&& match r.evict {
            Some(y) => s2.registry.sessions@[y].user is None,
            None => true,
        }
        &&& r.refresh == (if now - row.last_updated >= crate::server::REFRESH_AFTER_SECONDS { Some(u) } else { None })
        &&& r.reply == Some(ResponseKind::Authenticate(AuthenticateResponse { error: None }))
        &&& !r.close && r.deliveries@.len() == 0
    };
    assert(u == id) by {
        if u != id {
            assert(s1.store.keys_unique());
            assert(s1.store.users@[u] == s1.store.users@[u]);
            assert(s1.store.users@[id] == s1.store.users@[id]);
        }
    }
}

/// The ids among `ids` of the members and invitees of `c`, in that order.
pub open spec fn participant_ids(store: &Store, c: u128, ids: Seq<u64>) -> Seq<u64>
    decreases ids.len(),
{
    if ids.len() == 0 {
        Seq::empty()
    } else {
        let rest = participant_ids(store, c, ids.drop_last());
        if store.is_participant(c, ids.last()) {
            rest.push(ids.last())
        } else {
            rest
        }
    }
}

proof fn lemma_participant_ids(store: &Store, reg: &Registry, c: u128, ids: Seq<u64>)
    ensures
        member_list(store, reg, c, ids) == participant_ids(store, c, ids).map_values(
            |u: u64| member_entry(store, reg, c, u),
        ),
        forall|u: u64| #[trigger] participant_ids(store, c, ids).contains(u) <==> (ids.contains(u)
            && store.is_participant(c, u)),
        ids.no_duplicates() ==> participant_ids(store, c, ids).no_duplicates(),
    decreases ids.len(),
{
    if ids.len() > 0 {
        let init = ids.drop_last();
        let last = ids.last();
        lemma_participant_ids(store, reg, c, init);
        let rest = participant_ids(store, c, init);
        let f = |u: u64| member_entry(store, reg, c, u);
        if store.is_participant(c, last) {
            assert(rest.push(last).map_values(f) =~= rest.map_values(f).push(f(last)));
        }
        assert forall|u: u64| #[trigger] participant_ids(store, c, ids).contains(u) <==> (ids.contains(u)
            && store.is_participant(c, u)) by {
            if ids.contains(u) && u != last {
                let i = choose|i: int| 0 <= i < ids.len() && ids[i] == u;
                assert(init[i] == u);
            }
            if init.contains(u) {
                let i = choose|i: int| 0 <= i < init.len() && init[i] == u;
                assert(ids[i] == u);
            }
            if store.is_participant(c, last) {
                assert(rest.push(last)[rest.len() as int] == last);
                if rest.push(last).contains(u) && u != last {
                    let i = choose|i: int| 0 <= i < rest.push(last).len() && rest.push(last)[i] == u;
                    assert(rest[i] == u);
                }
                if rest.contains(u) {
                    let i = choose|i: int| 0 <= i < rest.len() && rest[i] == u;
                    assert(rest.push(last)[i] == u);
                }
            }
            assert(ids[ids.len() - 1] == last);
        }
        if ids.no_duplicates() && store.is_participant(c, last) {
            assert(init.no_duplicates()) by {
                assert forall|i: int, j: int| 0 <= i < init.len() && 0 <= j < init.len() && i != j implies init[i] != init[j] by {
                    assert(init[i] == ids[i] && init[j] == ids[j]);
                }
            }
            assert(!init.contains(last)) by {
                if init.contains(last) {
                    let i = choose|i: int| 0 <= i < init.len() && init[i] == last;
                    assert(ids[i] == ids[ids.len() - 1]);
                }
            }
            assert(!rest.contains(last));
            let q = rest.push(last);
            assert forall|i: int, j: int| 0 <= i < q.len() && 0 <= j < q.len() && i != j implies q[i] != q[j] by {
                if i < rest.len() && j < rest.len() {
                    assert(q[i] == rest[i] && q[j] == rest[j]);
                } else if i < rest.len() {
                    assert(rest.contains(q[i]));
                } else if j < rest.len() {
                    assert(rest.contains(q[j]));
                }
            }
        } else if ids.no_duplicates() {
            assert(init.no_duplicates()) by {
                assert forall|i: int, j: int| 0 <= i < init.len() && 0 <= j < init.len() && i != j implies init[i] != init[j] by {
                    assert(init[i] == ids[i] && init[j] == ids[j]);
                }
            }
        }
    }
}

/// A channel's member list has one entry for each of its members and
/// invitees, and no other: the entries are those of a sequence of ids that
/// holds every member and invitee exactly once.
pub proof fn law_member_list_complete(s: &State, c: u128)
    requires
        s.wf(),
        s.store.has_channel(c),
    ensures
        ({
            let ids = participant_ids(&s.store, c, s.store.user_ids@);
            &&& member_list(&s.store, &s.registry, c, s.store.user_ids@) == ids.map_values(
                |u: u64| member_entry(&s.store, &s.registry, c, u),
            )
            &&& ids.no_duplicates()
            &&& forall|u: u64| #[trigger] ids.contains(u) <==> s.store.is_participant(c, u)
        }),
{
    lemma_participant_ids(&s.store, &s.registry, c, s.store.user_ids@);
    let ids = participant_ids(&s.store, c, s.store.user_ids@);
    assert forall|u: u64| #[trigger] ids.contains(u) <==> s.store.is_participant(c, u) by {
        if s.store.is_participant(c, u) {
            if s.store.channels@[c].members@.contains_key(u) {
                assert(s.store.users@.contains_key(u));
            } else {
                assert(s.store.channels@[c].invites@.contains_key(u));
                assert(s.store.users@.contains_key(u));
            }
            assert(s.store.user_ids@.contains(u));
        }
    }
}

} // verus!
