use vstd::prelude::*;

use crate::protocol::{
    is_error, AllowInvitesRequest, AnnounceResponse, AllowInvitesResponse, AuthenticateRequest, AuthenticateResponse, Channel,
    ChannelMember, CreateRequest, CreateResponse, DeleteAccountResponse, DisbandRequest, DisbandResponse,
    ErrorResponse, InviteRequest, InviteResponse, InvitedResponse, JoinRequest, JoinResponse, KickRequest,
    KickResponse, LeaveRequest, LeaveResponse, ListRequest, ListResponse, MemberChangeKind,
    MemberChangeResponse, MessageRequest, MessageResponse, PingResponse, PromoteRequest, PromoteResponse,
    PublicKeyRequest, PublicKeyResponse, RegisterRequest, RegisterResponse, RequestContainer, RequestKind,
    ResponseContainer, ResponseKind, SecretsRequest, SecretsResponse, SendSecretsRequest,
    SendSecretsResponse, SimpleChannel, UpdateKind, UpdateRequest, UpdateResponse, UpdatedResponse,
    VersionRequest, VersionResponse, VERSION,
};
use crate::rank::{rank_level, Rank};
use crate::registry::{identity_of, Registry, ClientState, User};
use crate::store::{lookup, Store, UserRow};
use crate::bridge::{contains_sub, hex_of, key_text, sha3_256_of, underscores, ApiKeyParts};
use crate::world::{id_from_world, world_id, World};

verus! {

broadcast use vstd::std_specs::hash::group_hash_axioms;

/// One message queued, without waiting, on each of a set of sessions.
pub struct Delivery {
    pub conns: Vec<u64>,
    pub message: ResponseContainer,
}

/// What handling one request asks of the connection layer, in this order:
/// queue `deliveries`, shut down session `evict`, write `reply` to the caller
/// under the request's number, hand `refresh` to the profile refresher, and
/// end the caller's session if `close` is set.
pub struct Outcome {
    pub reply: Option<ResponseKind>,
    pub deliveries: Vec<Delivery>,
    pub evict: Option<u64>,
    pub close: bool,
    pub refresh: Option<u64>,
}

impl Outcome {
    /// The outcome has no effect besides its reply.
    pub open spec fn only_reply(&self) -> bool {
        &&& self.deliveries@.len() == 0
        &&& self.evict is None
        &&& !self.close
        &&& self.refresh is None
    }

    /// The reply is the generic error envelope with this text and no channel.
    pub open spec fn is_error(&self, text: Seq<char>) -> bool {
        &&& self.reply matches Some(k) && is_error(k, text)
        &&& self.reply matches Some(ResponseKind::Error(e)) && e.channel is None
    }

    /// The reply is a login answer that carries this error text.
    pub open spec fn is_auth_error(&self, text: Seq<char>) -> bool {
        &&& self.reply matches Some(ResponseKind::Authenticate(a))
        &&& a.error is Some
        &&& a.error->Some_0@ == text
    }

    /// The reply is an error scoped to channel `c` with this text.
    pub open spec fn is_channel_error(&self, c: u128, text: Seq<char>) -> bool {
        self.reply matches Some(ResponseKind::Error(e)) && e.error@ == text && e.channel == Some(c)
    }

    pub fn reply(kind: ResponseKind) -> (r: Outcome)
        ensures
            r.reply == Some(kind),
            r.only_reply(),
    {
        Outcome { reply: Some(kind), deliveries: Vec::new(), evict: None, close: false, refresh: None }
    }

    pub fn error(channel: Option<u128>, text: &str) -> (r: Outcome)
        ensures
            r.reply matches Some(ResponseKind::Error(e)) && e.error@ == text@ && e.channel == channel,
            r.only_reply(),
    {
        Outcome::reply(ResponseKind::Error(ErrorResponse::new(channel, text)))
    }

    pub fn silent() -> (r: Outcome)
        ensures
            r.reply is None,
            r.only_reply(),
    {
        Outcome { reply: None, deliveries: Vec::new(), evict: None, close: false, refresh: None }
    }
}

/// The channel member entry that user `u` has in channel `c`.
pub open spec fn member_entry(store: &Store, reg: &Registry, c: u128, u: u64) -> ChannelMember {
    ChannelMember {
        name: store.users@[u].name,
        world: world_id(store.users@[u].world),
        rank: if store.members_of(c).contains_key(u) { store.members_of(c)[u] } else { Rank::Invited },
        online: reg.clients@.contains_key(u),
    }
}

/// The entries of channel `c` for the users among `ids` who take part in it, in that order.
pub open spec fn member_list(store: &Store, reg: &Registry, c: u128, ids: Seq<u64>) -> Seq<ChannelMember>
    decreases ids.len(),
{
    if ids.len() == 0 {
        Seq::empty()
    } else {
        let rest = member_list(store, reg, c, ids.drop_last());
        if store.is_participant(c, ids.last()) {
            rest.push(member_entry(store, reg, c, ids.last()))
        } else {
            rest
        }
    }
}

/// The server core: the tables and the live sessions.
pub struct State {
    pub store: Store,
    pub registry: Registry,
}

impl State {
    /// The tables keep their invariant, every channel has an admin, and the
    /// session indices agree.
    pub open spec fn wf(&self) -> bool {
        &&& self.store.wf()
        &&& self.store.admins_ok()
        &&& self.registry.wf()
    }

    /// Session `x` is live and logged in.
    pub open spec fn logged_in(&self, x: u64) -> bool {
        &&& self.registry.sessions@.contains_key(x)
        &&& self.registry.sessions@[x].user is Some
    }

    /// The user that session `x` is logged in as.
    pub open spec fn user_of(&self, x: u64) -> User {
        self.registry.sessions@[x].user->Some_0
    }

    /// The identity that session `x` is logged in as.
    pub open spec fn id_of(&self, x: u64) -> u64 {
        self.user_of(x).lodestone_id
    }

    /// Connection `y` is the live session of a member or invitee of `c`.
    pub open spec fn reaches(&self, c: u128, y: u64) -> bool {
        self.registry.reaches(&self.store, c, y)
    }

    pub fn new() -> (r: State)
        ensures
            r.wf(),
            r.registry.sessions@ == Map::<u64, ClientState>::empty(),
            r.registry.messages_sent == 0,
    {
        State { store: Store::new(), registry: Registry::new() }
    }

    fn caller(&self, x: u64) -> (r: (u64, String, World))
        requires
            self.logged_in(x),
        ensures
            r.0 == self.id_of(x),
            r.1 == self.user_of(x).name,
            r.2 == self.user_of(x).world,
    {
        let s = self.registry.session(x).unwrap();
        let u = s.user.as_ref().unwrap();
        (u.lodestone_id, u.name.clone(), u.world)
    }

    /// Appends to `out` a fan-out of `kind` to the online participants of `c`.
    fn fan_out(&self, c: u128, kind: ResponseKind, out: &mut Vec<Delivery>)
        requires
            self.wf(),
        ensures
            final(out)@.len() == old(out)@.len() + 1,
            forall|i: int| 0 <= i < old(out)@.len() ==> final(out)@[i] == old(out)@[i],
            self.delivers(final(out)@[old(out)@.len() as int], c, kind),
    {
        out.push(self.send_to_all(c, kind));
    }

    /// `kind` under number 0, addressed to every online member and invitee of `c`.
    pub fn send_to_all(&self, c: u128, kind: ResponseKind) -> (r: Delivery)
        requires
            self.wf(),
        ensures
            self.delivers(r, c, kind),
    {
        let conns = self.registry.recipients(&self.store, c, false, None);
        Delivery { conns, message: ResponseContainer { number: 0, kind } }
    }

    /// An operator announcement, addressed to every logged-in session.
    pub fn announce(&self, msg: &str) -> (r: Delivery)
        requires
            self.wf(),
        ensures
            r.message.number == 0,
            r.message.kind matches ResponseKind::Announce(a) && a.announcement@ == msg@,
            r.conns@.no_duplicates(),
            forall|y: u64| r.conns@.contains(y) <==> self.logged_in(y),
    {
        let conns = self.registry.logged_in_conns();
        Delivery { conns, message: ResponseContainer { number: 0, kind: ResponseKind::Announce(AnnounceResponse::new(msg)) } }
    }

    /// A delivery of `kind` under number 0 to exactly the online participants of `c`, each once.
    pub open spec fn delivers(&self, d: Delivery, c: u128, kind: ResponseKind) -> bool {
        &&& d.message.number == 0
        &&& d.message.kind == kind
        &&& d.conns@.no_duplicates()
        &&& forall|y: u64| d.conns@.contains(y) <==> self.reaches(c, y)
    }

    /// The full channel object of an existing channel.
    pub fn channel_view(&self, c: u128) -> (r: Channel)
        requires
            self.wf(),
            self.store.has_channel(c),
        ensures
            r.id == c,
            r.name@ == self.store.name_of(c),
            r.members@ == member_list(&self.store, &self.registry, c, self.store.user_ids@),
    {
        let rec = self.store.channels.get(&c).unwrap();
        let mut members: Vec<ChannelMember> = Vec::new();
        let mut i: usize = 0;
        while i < self.store.user_ids.len()
            invariant
                self.wf(),
                self.store.has_channel(c),
                *rec == self.store.channels@[c],
                i <= self.store.user_ids@.len(),
                members@ == member_list(&self.store, &self.registry, c, self.store.user_ids@.subrange(0, i as int)),
            decreases self.store.user_ids@.len() - i,
        {
            let u = self.store.user_ids[i];
            assert(self.store.user_ids@.contains(u));
            let row = self.store.users.get(&u).unwrap();
            let rank = match rec.members.get(&u) {
                Some(r) => Some(*r),
                None => if rec.invites.contains_key(&u) {
                    Some(Rank::Invited)
                } else {
                    None
                },
            };
            if let Some(rank) = rank {
                members.push(ChannelMember {
                    name: row.name.clone(),
                    world: id_from_world(row.world),
                    rank,
                    online: self.registry.contains(u),
                });
            }
            proof {
                let ids = self.store.user_ids@.subrange(0, i as int + 1);
                assert(ids.drop_last() =~= self.store.user_ids@.subrange(0, i as int));
                assert(ids.last() == u);
            }
            i = i + 1;
        }
        proof {
            assert(self.store.user_ids@.subrange(0, i as int) =~= self.store.user_ids@);
        }
        Channel { id: c, name: rec.name.clone(), members }
    }

    pub fn ping(&self) -> (r: Outcome)
        ensures
            r.reply == Some(ResponseKind::Ping(PingResponse {})),
            r.only_reply(),
    {
        Outcome::reply(ResponseKind::Ping(PingResponse {}))
    }

    /// What the version check answers.
    pub open spec fn version_post(req: VersionRequest, r: Outcome) -> bool {
        &&& req.version == VERSION ==> r.reply == Some(ResponseKind::Version(VersionResponse { version: VERSION }))
            && r.only_reply()
        &&& req.version != VERSION ==> r.is_error("unsupported version"@) && r.close && r.deliveries@.len() == 0
            && r.evict is None && r.refresh is None
    }

    /// Checks the client's protocol version; a mismatch ends the session.
    pub fn version(&self, req: VersionRequest) -> (r: Outcome)
        ensures
            State::version_post(req, r),
    {
        if req.version != VERSION {
            let mut o = Outcome::error(None, "unsupported version");
            o.close = true;
            return o;
        }
        Outcome::reply(ResponseKind::Version(VersionResponse { version: VERSION }))
    }

    /// What setting the invite flag does.
    pub open spec fn allow_invites_post(old: &State, new: &State, x: u64, req: AllowInvitesRequest, r: Outcome) -> bool {
        &&& (new.store == old.store)
        &&& (new.registry.sessions@ == old.registry.sessions@.insert(
            x,
            ClientState {
                user: old.registry.sessions@[x].user,
                pk: old.registry.sessions@[x].pk,
                allow_invites: req.allowed,
            },
        ))
        &&& (new.registry.clients@ == old.registry.clients@)
        &&& (r.reply == Some(ResponseKind::AllowInvites(AllowInvitesResponse { allowed: req.allowed })))
        &&& (r.only_reply())
    }

    /// Sets whether the caller accepts invites, and echoes the value.
    pub fn allow_invites(&mut self, x: u64, req: AllowInvitesRequest) -> (r: Outcome)
        requires
            old(self).wf(),
            old(self).logged_in(x),
        ensures
            final(self).wf(),
            State::allow_invites_post(old(self), final(self), x, req, r),
    {
        self.registry.set_allow_invites(x, req.allowed);
        Outcome::reply(ResponseKind::AllowInvites(AllowInvitesResponse { allowed: req.allowed }))
    }

    /// What a public-key lookup answers.
    pub open spec fn public_key_post(s: &State, req: PublicKeyRequest, r: Outcome) -> bool {
        &&& r.only_reply()
        &&& r.reply matches Some(ResponseKind::PublicKey(p)) && p.name == req.name && p.world == req.world && (
            match p.pk {
                Some(pk) => exists|y: u64| #[trigger] s.registry.sessions@.contains_key(y)
                    && s.registry.sessions@[y].allow_invites
                    && shows_as(s.registry.sessions@[y], req.name@, req.world)
                    && pk@ == s.registry.sessions@[y].pk@,
                None => forall|y: u64| #[trigger] s.registry.sessions@.contains_key(y)
                    && shows_as(s.registry.sessions@[y], req.name@, req.world)
                    ==> !s.registry.sessions@[y].allow_invites,
            })
    }

    /// The public key of an online user who accepts invites; `None` otherwise.
    pub fn public_key(&self, req: PublicKeyRequest) -> (r: Outcome)
        requires
            self.wf(),
        ensures
            State::public_key_post(self, req, r),
    {
        let pk = match self.find_invitable(&req.name, req.world) {
            Some(y) => {
                let s = self.registry.session(y).unwrap();
                Some(s.pk.clone())
            },
            None => None,
        };
        Outcome::reply(ResponseKind::PublicKey(PublicKeyResponse { name: req.name, world: req.world, pk }))
    }

    /// The connection of the online user shown as `name` on world `world`,
    /// if that user accepts invites.
    fn find_invitable(&self, name: &String, world: u16) -> (r: Option<u64>)
        requires
            self.wf(),
        ensures
            match r {
                Some(y) => self.registry.sessions@.contains_key(y) && self.registry.sessions@[y].allow_invites
                    && shows_as(self.registry.sessions@[y], name@, world),
                None => forall|y: u64| #[trigger] self.registry.sessions@.contains_key(y)
                    && shows_as(self.registry.sessions@[y], name@, world)
                    ==> !self.registry.sessions@[y].allow_invites,
            },
    {
        proof {
            crate::world::lemma_id_world_round_trip(world);
        }
        match crate::world::world_from_id(world) {
            Some(w) => {
                let r = self.registry.find_invitable(name, w);
                proof {
                    if r is None {
                        assert forall|z: u64| #[trigger] self.registry.sessions@.contains_key(z)
                            && shows_as(self.registry.sessions@[z], name@, world)
                            implies !self.registry.sessions@[z].allow_invites by {
                            let u = self.registry.sessions@[z].user->Some_0;
                            crate::world::lemma_world_id_injective(u.world, w);
                        }
                    }
                }
                r
            },
            None => {
                proof {
                    assert forall|z: u64| #[trigger] self.registry.sessions@.contains_key(z)
                        && shows_as(self.registry.sessions@[z], name@, world) implies false by {
                        let u = self.registry.sessions@[z].user->Some_0;
                        crate::world::lemma_world_id_round_trip(u.world);
                    }
                }
                None
            },
        }
    }

    /// What creating channel `id` does.
    pub open spec fn create_post(old: &State, new: &State, x: u64, id: u128, req: CreateRequest, r: Outcome) -> bool {
        &&& new.registry == old.registry
        &&& r.only_reply()
        &&& if old.store.has_channel(id) || !old.store.users@.contains_key(old.id_of(x)) {
            r.is_error("could not create channel"@) && *new == *old
        } else {
            &&& new.store.same_except(&old.store, id)
            &&& new.store.has_channel(id)
            &&& new.store.members_of(id) == map![old.id_of(x) => Rank::Admin]
            &&& new.store.invites_of(id).is_empty()
            &&& new.store.name_of(id) == req.name@
            &&& r.reply matches Some(ResponseKind::Create(resp)) && resp.channel.id == id
                && resp.channel.name@ == req.name@
                && resp.channel.members@ == member_list(&new.store, &new.registry, id, new.store.user_ids@)
        }
    }

    /// What disbanding does.
    pub open spec fn disband_post(old: &State, new: &State, x: u64, req: DisbandRequest, r: Outcome) -> bool {
        let c = req.channel;
        &&& new.registry == old.registry
        &&& if lookup(old.store.members_of(c), old.id_of(x)) != Some(Rank::Admin) {
            &&& r.is_channel_error(c, "not in channel/not enough permissions"@)
            &&& r.only_reply()
            &&& *new == *old
        } else {
            &&& !new.store.has_channel(c)
            &&& new.store.same_except(&old.store, c)
            &&& r.reply == Some(ResponseKind::Disband(DisbandResponse { channel: c }))
            &&& r.deliveries@.len() == 1
            &&& old.delivers(r.deliveries@[0], c, ResponseKind::Disband(DisbandResponse { channel: c }))
            &&& r.evict is None && !r.close && r.refresh is None
        }
    }

    /// What joining does.
    pub open spec fn join_post(old: &State, new: &State, x: u64, req: JoinRequest, r: Outcome) -> bool {
        let c = req.channel;
        let me = old.id_of(x);
        &&& new.registry == old.registry
        &&& if !old.store.invites_of(c).contains_key(me) {
            &&& r.is_channel_error(c, "you were not invited to that channel"@)
            &&& r.only_reply()
            &&& *new == *old
        } else {
            &&& new.store.same_except(&old.store, c)
            &&& new.store.has_channel(c)
            &&& new.store.members_of(c) == old.store.members_of(c).insert(me, Rank::Member)
            &&& new.store.invites_of(c) == old.store.invites_of(c).remove(me)
            &&& r.deliveries@.len() == 1
            &&& new.delivers(r.deliveries@[0], c, ResponseKind::MemberChange(MemberChangeResponse {
                channel: c,
                name: old.user_of(x).name,
                world: world_id(old.user_of(x).world),
                kind: MemberChangeKind::Join,
            }))
            &&& r.reply matches Some(ResponseKind::Join(resp)) && resp.channel.id == c
                && resp.channel.name@ == new.store.name_of(c)
                && resp.channel.members@ == member_list(&new.store, &new.registry, c, new.store.user_ids@)
            &&& r.evict is None && !r.close && r.refresh is None
        }
    }

    /// Creates channel `id` named `req.name` with the caller as its admin;
    /// fails when `id` is taken.
    pub fn create_with_id(&mut self, x: u64, id: u128, req: CreateRequest) -> (r: Outcome)
        requires
            old(self).wf(),
            old(self).logged_in(x),
        ensures
            final(self).wf(),
            final(self).registry == old(self).registry,
            r.only_reply(),
            State::create_post(old(self), final(self), x, id, req, r),
    {
        let (me, _, _) = self.caller(x);
        if self.store.contains_channel(id) || self.store.user(me).is_none() {
            return Outcome::error(None, "could not create channel");
        }
        self.store.insert_channel(id, req.name);
        self.store.put_member(id, me, Rank::Admin);
        proof {
            assert(self.store.members_of(id) =~= map![me => Rank::Admin]);
        }
        let channel = self.channel_view(id);
        Outcome::reply(ResponseKind::Create(CreateResponse { channel }))
    }

    /// What creating a channel under a random id does.
    pub open spec fn create_random_post(old: &State, new: &State, x: u64, req: CreateRequest, r: Outcome) -> bool {
        &&& (new.registry == old.registry)
        &&& (r.only_reply())
        &&& (r.reply matches Some(ResponseKind::Create(resp)) ==> {
            &&& !old.store.has_channel(resp.channel.id)
            &&& new.store.same_except(&old.store, resp.channel.id)
            &&& new.store.members_of(resp.channel.id) == map![old.id_of(x) => Rank::Admin]
            &&& new.store.invites_of(resp.channel.id).is_empty()
            &&& new.store.name_of(resp.channel.id) == req.name@
        })
        &&& (!(r.reply matches Some(ResponseKind::Create(_))) ==> r.is_error("could not create channel"@)
            && *new == *old)
    }

    /// Creates a channel under a fresh random id.
    pub fn create(&mut self, x: u64, req: CreateRequest) -> (r: Outcome)
        requires
            old(self).wf(),
            old(self).logged_in(x),
        ensures
            final(self).wf(),
            State::create_random_post(old(self), final(self), x, req, r),
    {
        let id = crate::bridge::fresh_id();
        self.create_with_id(x, id, req)
    }

    /// Tells every participant that the channel is gone, then deletes it.
    /// Only its admin may.
    pub fn disband(&mut self, x: u64, req: DisbandRequest) -> (r: Outcome)
        requires
            old(self).wf(),
            old(self).logged_in(x),
        ensures
            final(self).wf(),
            final(self).registry == old(self).registry,
            State::disband_post(old(self), final(self), x, req, r),
    {
        let (me, _, _) = self.caller(x);
        match self.store.rank_of(req.channel, me) {
            Some(Rank::Admin) => {},
            _ => return Outcome::error(Some(req.channel), "not in channel/not enough permissions"),
        }
        let mut deliveries: Vec<Delivery> = Vec::new();
        self.fan_out(req.channel, ResponseKind::Disband(DisbandResponse { channel: req.channel }), &mut deliveries);
        self.store.delete_channel(req.channel);
        Outcome {
            reply: Some(ResponseKind::Disband(DisbandResponse { channel: req.channel })),
            deliveries,
            evict: None,
            close: false,
            refresh: None,
        }
    }

    /// Accepts an invite: the invite is consumed, the caller becomes a member,
    /// and every participant, the caller included, hears of it.
    pub fn join(&mut self, x: u64, req: JoinRequest) -> (r: Outcome)
        requires
            old(self).wf(),
            old(self).logged_in(x),
        ensures
            final(self).wf(),
            final(self).registry == old(self).registry,
            State::join_post(old(self), final(self), x, req, r),
    {
        let (me, name, world) = self.caller(x);
        let c = req.channel;
        if !self.store.take_invite(c, me) {
            return Outcome::error(Some(c), "you were not invited to that channel");
        }
        proof {
            let w = choose|w: u64| #[trigger] old(self).store.channels@[c].members@.contains_key(w)
                && old(self).store.channels@[c].members@[w] == Rank::Admin;
            assert(self.store.members_of(c).contains_key(w));
            assert(lookup(self.store.members_of(c), me) != Some(Rank::Admin));
        }
        self.store.put_member(c, me, Rank::Member);
        let mut deliveries: Vec<Delivery> = Vec::new();
        self.fan_out(c, ResponseKind::MemberChange(MemberChangeResponse {
            channel: c,
            name,
            world: id_from_world(world),
            kind: MemberChangeKind::Join,
        }), &mut deliveries);
        let channel = self.channel_view(c);
        Outcome {
            reply: Some(ResponseKind::Join(JoinResponse { channel })),
            deliveries,
            evict: None,
            close: false,
            refresh: None,
        }
    }

    /// What renaming a channel does.
    pub open spec fn update_post(old: &State, new: &State, x: u64, req: UpdateRequest, r: Outcome) -> bool {
        &&& (new.registry == old.registry)
        &&& (lookup(old.store.members_of(req.channel), old.id_of(x)) != Some(Rank::Admin) ==> {
            &&& r.is_channel_error(req.channel, "not in that channel"@)
            &&& r.only_reply()
            &&& *new == *old
        })
        &&& (lookup(old.store.members_of(req.channel), old.id_of(x)) == Some(Rank::Admin) ==> {
            &&& new.store.same_except(&old.store, req.channel)
            &&& new.store.has_channel(req.channel)
            &&& new.store.members_of(req.channel) == old.store.members_of(req.channel)
            &&& new.store.invites_of(req.channel) == old.store.invites_of(req.channel)
            &&& new.store.name_of(req.channel) == (match req.kind { UpdateKind::Name(n) => n@ })
            &&& r.reply == Some(ResponseKind::Update(UpdateResponse { channel: req.channel }))
            &&& r.deliveries@.len() == 1
            &&& old.delivers(r.deliveries@[0], req.channel, ResponseKind::Updated(UpdatedResponse { channel: req.channel, kind: req.kind }))
            &&& r.evict is None && !r.close && r.refresh is None
        })
    }

    /// Renames a channel; only its admin may. Every participant hears of it.
    pub fn update(&mut self, x: u64, req: UpdateRequest) -> (r: Outcome)
        requires
            old(self).wf(),
            old(self).logged_in(x),
        ensures
            final(self).wf(),
            State::update_post(old(self), final(self), x, req, r),
    {
        let (me, _, _) = self.caller(x);
        let c = req.channel;
        match self.store.rank_of(c, me) {
            Some(Rank::Admin) => {},
            _ => return Outcome::error(Some(c), "not in that channel"),
        }
        let stored = match &req.kind {
            UpdateKind::Name(name) => name.clone(),
        };
        let mut deliveries: Vec<Delivery> = Vec::new();
        self.fan_out(c, ResponseKind::Updated(UpdatedResponse { channel: c, kind: req.kind }), &mut deliveries);
        self.store.rename_channel(c, stored);
        Outcome {
            reply: Some(ResponseKind::Update(UpdateResponse { channel: c })),
            deliveries,
            evict: None,
            close: false,
            refresh: None,
        }
    }

    /// What relaying a message does.
    pub open spec fn message_post(old: &State, new: &State, x: u64, req: MessageRequest, r: Outcome) -> bool {
        &&& (new.store == old.store)
        &&& (new.registry.sessions@ == old.registry.sessions@)
        &&& (new.registry.clients@ == old.registry.clients@)
        &&& (!old.store.members_of(req.channel).contains_key(old.id_of(x)) ==> {
            &&& r.is_channel_error(req.channel, "not in channel"@)
            &&& r.only_reply()
            &&& new.registry.messages_sent == old.registry.messages_sent
        })
        &&& (old.store.members_of(req.channel).contains_key(old.id_of(x)) ==> {
            &&& new.registry.messages_sent == (if old.registry.messages_sent == u64::MAX { 0 } else {
                (old.registry.messages_sent + 1) as u64 })
            &&& r.reply is None
            &&& r.deliveries@.len() == 1
            &&& r.deliveries@[0].message.number == 0
            &&& r.deliveries@[0].message.kind == ResponseKind::Message(MessageResponse {
                channel: req.channel,
                sender: old.user_of(x).name,
                world: world_id(old.user_of(x).world),
                message: req.message,
            })
            &&& r.deliveries@[0].conns@.no_duplicates()
            &&& forall|y: u64| r.deliveries@[0].conns@.contains(y) <==> old.registry.reaches_where(
                &old.store, req.channel, true, Some(old.id_of(x)), y)
            &&& r.evict is None && !r.close && r.refresh is None
        })
    }

    /// Relays a ciphertext to the channel's other online members and counts it.
    pub fn message(&mut self, x: u64, req: MessageRequest) -> (r: Outcome)
        requires
            old(self).wf(),
            old(self).logged_in(x),
        ensures
            final(self).wf(),
            State::message_post(old(self), final(self), x, req, r),
    {
        let (me, name, world) = self.caller(x);
        let c = req.channel;
        if self.store.rank_of(c, me).is_none() {
            return Outcome::error(Some(c), "not in channel");
        }
        self.registry.count_message();
        let conns = self.registry.recipients(&self.store, c, true, Some(me));
        let message = ResponseContainer {
            number: 0,
            kind: ResponseKind::Message(MessageResponse { channel: c, sender: name, world: id_from_world(world), message: req.message }),
        };
        let mut deliveries: Vec<Delivery> = Vec::new();
        deliveries.push(Delivery { conns, message });
        Outcome { reply: None, deliveries, evict: None, close: false, refresh: None }
    }

    /// What deleting the account does.
    pub open spec fn delete_account_post(old: &State, new: &State, x: u64, r: Outcome) -> bool {
        &&& (new.registry == old.registry)
        &&& (r.only_reply())
        &&& ((exists|c: u128| #[trigger] old.store.members_of(c).contains_key(old.id_of(x))) ==> {
            &&& r.is_error("leave all linkshells first"@)
            &&& *new == *old
        })
        &&& (!(exists|c: u128| #[trigger] old.store.members_of(c).contains_key(old.id_of(x))) ==> {
            let me = old.id_of(x);
            &&& r.reply == Some(ResponseKind::DeleteAccount(DeleteAccountResponse {}))
            &&& new.store.users@ == old.store.users@.remove(me)
            &&& new.store.verifications@ == old.store.verifications@.remove(me)
            &&& new.store.channels@.dom() == old.store.channels@.dom()
            &&& forall|c: u128| #[trigger] new.store.members_of(c) == old.store.members_of(c)
            &&& forall|c: u128| #[trigger] new.store.invites_of(c) == old.store.invites_of(c).remove(me)
        })
    }

    /// Deletes the caller's account, which must belong to no channel.
    pub fn delete_account(&mut self, x: u64) -> (r: Outcome)
        requires
            old(self).wf(),
            old(self).logged_in(x),
        ensures
            final(self).wf(),
            State::delete_account_post(old(self), final(self), x, r),
    {
        let (me, _, _) = self.caller(x);
        if self.store.membership_count(me) > 0 {
            return Outcome::error(None, "leave all linkshells first");
        }
        self.store.delete_user(me);
        Outcome::reply(ResponseKind::DeleteAccount(DeleteAccountResponse {}))
    }

    /// `t` is what looking up the user shown as `name` on world `world` may
    /// give: an online session's identity first, else a registered user.
    pub open spec fn resolves(&self, name: Seq<char>, world: u16, t: Option<u64>) -> bool {
        match t {
            Some(k) => (self.registry.clients@.contains_key(k)
                && shows_as(self.registry.sessions@[self.registry.clients@[k]], name, world))
                || (self.store.users@.contains_key(k) && self.store.users@[k].name@ == name
                && world_id(self.store.users@[k].world) == world),
            None => (forall|y: u64| #[trigger] self.registry.sessions@.contains_key(y)
                ==> !shows_as(self.registry.sessions@[y], name, world))
                && (forall|k: u64| #[trigger] self.store.users@.contains_key(k)
                ==> !(self.store.users@[k].name@ == name && world_id(self.store.users@[k].world) == world)),
        }
    }

    /// Looks a user up by name and world: online sessions first, then the users table.
    pub fn get_id(&self, name: &String, world: u16) -> (r: Option<u64>)
        requires
            self.wf(),
        ensures
            self.resolves(name@, world, r),
    {
        proof {
            crate::world::lemma_id_world_round_trip(world);
        }
        let w = match crate::world::world_from_id(world) {
            Some(w) => w,
            None => {
                proof {
                    assert forall|y: u64| #[trigger] self.registry.sessions@.contains_key(y)
                        implies !shows_as(self.registry.sessions@[y], name@, world) by {
                        if self.registry.sessions@[y].user is Some {
                            crate::world::lemma_world_id_round_trip(self.registry.sessions@[y].user->Some_0.world);
                        }
                    }
                    assert forall|k: u64| #[trigger] self.store.users@.contains_key(k)
                        implies !(self.store.users@[k].name@ == name@ && world_id(self.store.users@[k].world) == world) by {
                        crate::world::lemma_world_id_round_trip(self.store.users@[k].world);
                    }
                }
                return None;
            },
        };
        match self.registry.find_online(name, w) {
            Some(k) => Some(k),
            None => {
                let r = self.store.find_user_by_name(name, w);
                proof {
                    assert forall|y: u64| #[trigger] self.registry.sessions@.contains_key(y)
                        implies !shows_as(self.registry.sessions@[y], name@, world) by {
                        if self.registry.sessions@[y].user is Some {
                            crate::world::lemma_world_id_injective(self.registry.sessions@[y].user->Some_0.world, w);
                        }
                    }
                    if r is None {
                        assert forall|k: u64| #[trigger] self.store.users@.contains_key(k)
                            implies !(self.store.users@[k].name@ == name@ && world_id(self.store.users@[k].world) == world) by {
                            crate::world::lemma_world_id_injective(self.store.users@[k].world, w);
                        }
                    }
                }
                r
            },
        }
    }

    /// What leaving does: a member leaves (the last one deletes the channel;
    /// an admin with others left is refused), an invitee declines.
    pub open spec fn leave_post(old: &State, new: &State, x: u64, req: LeaveRequest, r: Outcome) -> bool {
        let me = old.id_of(x);
        let c = req.channel;
        let members = old.store.members_of(c);
        &&& new.registry == old.registry
        &&& if !old.store.is_participant(c, me) {
            &&& r.is_channel_error(c, "not in that channel"@)
            &&& r.only_reply()
            &&& *new == *old
        } else if members.contains_key(me) && members[me] == Rank::Admin && members.len() > 1 {
            &&& r.reply matches Some(ResponseKind::Leave(l)) && l.channel == c
                && (l.error is Some && l.error->Some_0@ == "you must promote someone to admin before leaving"@)
            &&& r.only_reply()
            &&& *new == *old
        } else {
            &&& r.reply matches Some(ResponseKind::Leave(l)) && l.channel == c && l.error is None
            &&& r.evict is None && !r.close && r.refresh is None
            &&& new.store.same_except(&old.store, c)
            &&& if members.contains_key(me) && members.len() == 1 {
                &&& !new.store.has_channel(c)
                &&& r.deliveries@.len() == 0
            } else {
                let kind = if members.contains_key(me) { MemberChangeKind::Leave } else { MemberChangeKind::InviteDecline };
                &&& new.store.has_channel(c)
                &&& new.store.members_of(c) == members.remove(me)
                &&& new.store.invites_of(c) == old.store.invites_of(c).remove(me)
                &&& r.deliveries@.len() == 1
                &&& new.delivers(r.deliveries@[0], c, ResponseKind::MemberChange(MemberChangeResponse {
                    channel: c,
                    name: old.user_of(x).name,
                    world: world_id(old.user_of(x).world),
                    kind,
                }))
            }
        }
    }

    /// Leaves a channel, or declines an invite to it.
    pub fn leave(&mut self, x: u64, req: LeaveRequest) -> (r: Outcome)
        requires
            old(self).wf(),
            old(self).logged_in(x),
        ensures
            final(self).wf(),
            State::leave_post(old(self), final(self), x, req, r),
    {
        let (me, name, world) = self.caller(x);
        let c = req.channel;
        let rank = match self.store.rank_or_invite(c, me) {
            Some(rank) => rank,
            None => return Outcome::error(Some(c), "not in that channel"),
        };
        let decline = rank == Rank::Invited;
        let users = self.store.member_count(c);
        if users > 1 && rank == Rank::Admin {
            return Outcome::reply(ResponseKind::Leave(LeaveResponse::error(c, "you must promote someone to admin before leaving")));
        }
        if users == 1 && !decline {
            self.store.delete_channel(c);
            return Outcome::reply(ResponseKind::Leave(LeaveResponse::success(c)));
        }
        let kind = if decline {
            self.store.take_invite(c, me);
            proof {
                assert(self.store.members_of(c) =~= old(self).store.members_of(c).remove(me));
            }
            MemberChangeKind::InviteDecline
        } else {
            proof {
                assert(self.store.invites_of(c) =~= old(self).store.invites_of(c).remove(me));
                if users == 0 {
                    assert(self.store.members_of(c).contains_key(me));
                    assert(self.store.members_of(c).dom().contains(me));
                    vstd::set_lib::lemma_set_empty_equivalency_len(self.store.members_of(c).dom());
                }
            }
            self.store.remove_member(c, me);
            MemberChangeKind::Leave
        };
        let mut deliveries: Vec<Delivery> = Vec::new();
        self.fan_out(c, ResponseKind::MemberChange(MemberChangeResponse {
            channel: c,
            name,
            world: id_from_world(world),
            kind,
        }), &mut deliveries);
        Outcome {
            reply: Some(ResponseKind::Leave(LeaveResponse::success(c))),
            deliveries,
            evict: None,
            close: false,
            refresh: None,
        }
    }

    /// What kicking with the looked-up target `t` does: a moderator or admin
    /// removes a lower-ranked member, or cancels an invite.
    pub open spec fn kick_post(old: &State, new: &State, x: u64, req: KickRequest, t: Option<u64>, r: Outcome) -> bool {
        let me = old.id_of(x);
        let c = req.channel;
        let members = old.store.members_of(c);
        let mine = lookup(members, me);
        &&& new.registry == old.registry
        &&& if !(mine is Some && rank_level(mine->Some_0) >= 2) {
            r.is_channel_error(c, "not in channel/not enough permissions"@) && r.only_reply() && *new == *old
        } else if t is None {
            r.is_channel_error(c, "user not found"@) && r.only_reply() && *new == *old
        } else if members.contains_key(t->Some_0) && rank_level(members[t->Some_0]) >= rank_level(mine->Some_0) {
            r.is_channel_error(c, "cannot kick someone of equal or higher rank"@) && r.only_reply() && *new == *old
        } else if !old.store.is_participant(c, t->Some_0) {
            r.is_channel_error(c, "user not in channel"@) && r.only_reply() && *new == *old
        } else {
            let target = t->Some_0;
            let kind = if members.contains_key(target) {
                MemberChangeKind::Kick { kicker: old.user_of(x).name, kicker_world: world_id(old.user_of(x).world) }
            } else {
                MemberChangeKind::InviteCancel { canceler: old.user_of(x).name, canceler_world: world_id(old.user_of(x).world) }
            };
            &&& new.store.same_except(&old.store, c)
            &&& new.store.has_channel(c)
            &&& new.store.members_of(c) == members.remove(target)
            &&& new.store.invites_of(c) == old.store.invites_of(c).remove(target)
            &&& r.deliveries@.len() == 1
            &&& old.delivers(r.deliveries@[0], c, ResponseKind::MemberChange(MemberChangeResponse {
                channel: c, name: req.name, world: req.world, kind }))
            &&& r.reply == Some(ResponseKind::Kick(KickResponse { channel: c, name: req.name, world: req.world }))
            &&& r.evict is None && !r.close && r.refresh is None
        }
    }

    /// Kicks a member of lower rank, or cancels an invite, with `t` the
    /// looked-up identity of the target.
    pub fn kick_resolved(&mut self, x: u64, req: KickRequest, t: Option<u64>) -> (r: Outcome)
        requires
            old(self).wf(),
            old(self).logged_in(x),
        ensures
            final(self).wf(),
            State::kick_post(old(self), final(self), x, req, t, r),
    {
        let (me, name, world) = self.caller(x);
        let c = req.channel;
        let rank = match self.store.rank_of(c, me) {
            Some(rank) => rank,
            None => return Outcome::error(Some(c), "not in channel/not enough permissions"),
        };
        if !rank.at_least(Rank::Moderator) {
            return Outcome::error(Some(c), "not in channel/not enough permissions");
        }
        let target = match t {
            Some(target) => target,
            None => return Outcome::error(Some(c), "user not found"),
        };
        let target_rank = self.store.rank_of(c, target);
        match target_rank {
            Some(tr) => {
                if tr.at_least(rank) {
                    return Outcome::error(Some(c), "cannot kick someone of equal or higher rank");
                }
            },
            None => {
                if !self.store.is_invited(c, target) {
                    return Outcome::error(Some(c), "user not in channel");
                }
            },
        }
        let kind = match target_rank {
            Some(_) => MemberChangeKind::Kick { kicker: name, kicker_world: id_from_world(world) },
            None => MemberChangeKind::InviteCancel { canceler: name, canceler_world: id_from_world(world) },
        };
        let mut deliveries: Vec<Delivery> = Vec::new();
        self.fan_out(c, ResponseKind::MemberChange(MemberChangeResponse {
            channel: c, name: req.name.clone(), world: req.world, kind }), &mut deliveries);
        if target_rank.is_some() {
            proof {
                assert(self.store.invites_of(c) =~= old(self).store.invites_of(c).remove(target));
            }
            self.store.remove_member(c, target);
        } else {
            self.store.take_invite(c, target);
            proof {
                assert(self.store.members_of(c) =~= old(self).store.members_of(c).remove(target));
            }
        }
        Outcome {
            reply: Some(ResponseKind::Kick(KickResponse { channel: c, name: req.name, world: req.world })),
            deliveries,
            evict: None,
            close: false,
            refresh: None,
        }
    }

    /// Kicks the user shown as `req.name` on `req.world`.
    pub fn kick(&mut self, x: u64, req: KickRequest) -> (r: Outcome)
        requires
            old(self).wf(),
            old(self).logged_in(x),
        ensures
            final(self).wf(),
            exists|t: Option<u64>| old(self).resolves(req.name@, req.world, t)
                && #[trigger] State::kick_post(old(self), final(self), x, req, t, r),
    {
        let t = self.get_id(&req.name, req.world);
        self.kick_resolved(x, req, t)
    }

    /// What promoting the looked-up target `t` to `req.rank` does. Promoting
    /// to admin hands the caller's admin rank over and makes the caller a moderator.
    pub open spec fn promote_post(old: &State, new: &State, x: u64, req: PromoteRequest, t: Option<u64>, r: Outcome) -> bool {
        let me = old.id_of(x);
        let c = req.channel;
        let members = old.store.members_of(c);
        &&& new.registry == old.registry
        &&& if lookup(members, me) != Some(Rank::Admin) {
            r.is_channel_error(c, "not in channel/not enough permissions"@) && r.only_reply() && *new == *old
        } else if req.rank == Rank::Invited {
            r.is_channel_error(c, "cannot change rank to invited"@) && r.only_reply() && *new == *old
        } else if t is None {
            r.is_channel_error(c, "user not found"@) && r.only_reply() && *new == *old
        } else if t == Some(me) {
            r.is_channel_error(c, "cannot change own rank"@) && r.only_reply() && *new == *old
        } else if !members.contains_key(t->Some_0) {
            r.is_channel_error(c, "user not in channel"@) && r.only_reply() && *new == *old
        } else if members[t->Some_0] == Rank::Admin {
            r.is_channel_error(c, "cannot change rank of someone of equal or higher rank"@) && r.only_reply() && *new == *old
        } else {
            let target = t->Some_0;
            let target_change = ResponseKind::MemberChange(MemberChangeResponse {
                channel: c, name: req.name, world: req.world, kind: MemberChangeKind::Promote { rank: req.rank } });
            &&& new.store.same_except(&old.store, c)
            &&& new.store.has_channel(c)
            &&& new.store.invites_of(c) == old.store.invites_of(c)
            &&& r.reply == Some(ResponseKind::Promote(PromoteResponse {
                channel: c, name: req.name, world: req.world, rank: req.rank }))
            &&& r.evict is None && !r.close && r.refresh is None
            &&& if req.rank == Rank::Admin {
                &&& new.store.members_of(c) == members.insert(target, Rank::Admin).insert(me, Rank::Moderator)
                &&& r.deliveries@.len() == 2
                &&& new.delivers(r.deliveries@[0], c, ResponseKind::MemberChange(MemberChangeResponse {
                    channel: c,
                    name: old.user_of(x).name,
                    world: world_id(old.user_of(x).world),
                    kind: MemberChangeKind::Promote { rank: Rank::Moderator },
                }))
                &&& new.delivers(r.deliveries@[1], c, target_change)
            } else {
                &&& new.store.members_of(c) == members.insert(target, req.rank)
                &&& r.deliveries@.len() == 1
                &&& new.delivers(r.deliveries@[0], c, target_change)
            }
        }
    }

    /// Changes the rank of a lower-ranked member, with `t` the looked-up
    /// identity of the target; only the admin may.
    pub fn promote_resolved(&mut self, x: u64, req: PromoteRequest, t: Option<u64>) -> (r: Outcome)
        requires
            old(self).wf(),
            old(self).logged_in(x),
        ensures
            final(self).wf(),
            State::promote_post(old(self), final(self), x, req, t, r),
    {
        let (me, name, world) = self.caller(x);
        let c = req.channel;
        match self.store.rank_of(c, me) {
            Some(Rank::Admin) => {},
            _ => return Outcome::error(Some(c), "not in channel/not enough permissions"),
        }
        if req.rank == Rank::Invited {
            return Outcome::error(Some(c), "cannot change rank to invited");
        }
        let target = match t {
            Some(target) => target,
            None => return Outcome::error(Some(c), "user not found"),
        };
        if target == me {
            return Outcome::error(Some(c), "cannot change own rank");
        }
        match self.store.rank_of(c, target) {
            None => return Outcome::error(Some(c), "user not in channel"),
            Some(tr) => {
                if tr.at_least(Rank::Admin) {
                    return Outcome::error(Some(c), "cannot change rank of someone of equal or higher rank");
                }
            },
        }
        let swap = req.rank == Rank::Admin;
        self.store.put_member(c, target, req.rank);
        let mut deliveries: Vec<Delivery> = Vec::new();
        if swap {
            proof {
                assert(self.store.members_of(c).contains_key(target));
                assert(self.store.other_admin(c, me));
            }
            self.store.put_member(c, me, Rank::Moderator);
            self.fan_out(c, ResponseKind::MemberChange(MemberChangeResponse {
                channel: c,
                name,
                world: id_from_world(world),
                kind: MemberChangeKind::Promote { rank: Rank::Moderator },
            }), &mut deliveries);
        }
        self.fan_out(c, ResponseKind::MemberChange(MemberChangeResponse {
            channel: c,
            name: req.name.clone(),
            world: req.world,
            kind: MemberChangeKind::Promote { rank: req.rank },
        }), &mut deliveries);
        Outcome {
            reply: Some(ResponseKind::Promote(PromoteResponse { channel: c, name: req.name, world: req.world, rank: req.rank })),
            deliveries,
            evict: None,
            close: false,
            refresh: None,
        }
    }

    /// Changes the rank of the user shown as `req.name` on `req.world`.
    pub fn promote(&mut self, x: u64, req: PromoteRequest) -> (r: Outcome)
        requires
            old(self).wf(),
            old(self).logged_in(x),
        ensures
            final(self).wf(),
            exists|t: Option<u64>| old(self).resolves(req.name@, req.world, t)
                && #[trigger] State::promote_post(old(self), final(self), x, req, t, r),
    {
        let t = self.get_id(&req.name, req.world);
        self.promote_resolved(x, req, t)
    }

    /// `y` is what finding an online, invitable session shown as `name` on
    /// `world` may give.
    pub open spec fn invitable(&self, name: Seq<char>, world: u16, y: Option<u64>) -> bool {
        match y {
            Some(y) => self.registry.sessions@.contains_key(y) && self.registry.sessions@[y].allow_invites
                && shows_as(self.registry.sessions@[y], name, world),
            None => forall|z: u64| #[trigger] self.registry.sessions@.contains_key(z)
                && shows_as(self.registry.sessions@[z], name, world) ==> !self.registry.sessions@[z].allow_invites,
        }
    }

    /// What inviting the session `y` that was found for the target does.
    pub open spec fn invite_post(old: &State, new: &State, x: u64, req: InviteRequest, y: Option<u64>, r: Outcome) -> bool {
        let me = old.id_of(x);
        let c = req.channel;
        let mine = lookup(old.store.members_of(c), me);
        &&& new.registry == old.registry
        &&& if mine is None {
            r.is_channel_error(c, "not in channel"@) && r.only_reply() && *new == *old
        } else if rank_level(mine->Some_0) < 2 {
            r.is_channel_error(c, "not enough permissions to invite"@) && r.only_reply() && *new == *old
        } else if y is None {
            r.is_channel_error(c, "user not online"@) && r.only_reply() && *new == *old
        } else if old.registry.sessions@[y->Some_0].user->Some_0.lodestone_id == me {
            r.is_channel_error(c, "cannot invite self"@) && r.only_reply() && *new == *old
        } else if !old.store.users@.contains_key(old.registry.sessions@[y->Some_0].user->Some_0.lodestone_id) {
            r.is_channel_error(c, "user not found"@) && r.only_reply() && *new == *old
        } else if old.store.members_of(c).contains_key(old.registry.sessions@[y->Some_0].user->Some_0.lodestone_id) {
            r.is_channel_error(c, "already in channel"@) && r.only_reply() && *new == *old
        } else if old.store.invites_of(c).contains_key(old.registry.sessions@[y->Some_0].user->Some_0.lodestone_id) {
            r.is_channel_error(c, "already invited"@) && r.only_reply() && *new == *old
        } else {
            let target = old.registry.sessions@[y->Some_0].user->Some_0.lodestone_id;
            let inviter = old.user_of(x);
            &&& new.store.same_except(&old.store, c)
            &&& new.store.has_channel(c)
            &&& new.store.members_of(c) == old.store.members_of(c)
            &&& new.store.invites_of(c) == old.store.invites_of(c).insert(target, me)
            &&& r.deliveries@.len() == 2
            &&& old.delivers(r.deliveries@[0], c, ResponseKind::MemberChange(MemberChangeResponse {
                channel: c,
                name: req.name,
                world: req.world,
                kind: MemberChangeKind::Invite { inviter: inviter.name, inviter_world: world_id(inviter.world) },
            }))
            &&& r.deliveries@[1].conns@ == seq![y->Some_0]
            &&& r.deliveries@[1].message.number == 0
            &&& r.deliveries@[1].message.kind matches ResponseKind::Invited(inv)
                && inv.channel.id == c && inv.channel.name@ == new.store.name_of(c)
                && inv.channel.members@ == member_list(&new.store, &new.registry, c, new.store.user_ids@)
                && inv.name == inviter.name && inv.world == world_id(inviter.world)
                && inv.pk@ == old.registry.sessions@[x].pk@
                && inv.encrypted_secret == req.encrypted_secret
            &&& r.reply == Some(ResponseKind::Invite(InviteResponse { channel: c, name: req.name, world: req.world }))
            &&& r.evict is None && !r.close && r.refresh is None
        }
    }

    /// Invites the online user shown as `req.name` on `req.world`, handing them
    /// the channel secret encrypted for their key. Moderators and admins may.
    pub fn invite(&mut self, x: u64, req: InviteRequest) -> (r: Outcome)
        requires
            old(self).wf(),
            old(self).logged_in(x),
        ensures
            final(self).wf(),
            exists|y: Option<u64>| old(self).invitable(req.name@, req.world, y)
                && #[trigger] State::invite_post(old(self), final(self), x, req, y, r),
    {
        let y = self.find_invitable(&req.name, req.world);
        self.invite_found(x, req, y)
    }

    fn invite_found(&mut self, x: u64, req: InviteRequest, y: Option<u64>) -> (r: Outcome)
        requires
            old(self).wf(),
            old(self).logged_in(x),
            y matches Some(y) ==> old(self).registry.sessions@.contains_key(y)
                && old(self).registry.sessions@[y].user is Some,
        ensures
            final(self).wf(),
            State::invite_post(old(self), final(self), x, req, y, r),
    {
        let (me, name, world) = self.caller(x);
        let c = req.channel;
        let rank = match self.store.rank_of(c, me) {
            Some(rank) => rank,
            None => return Outcome::error(Some(c), "not in channel"),
        };
        if !rank.at_least(Rank::Moderator) {
            return Outcome::error(Some(c), "not enough permissions to invite");
        }
        let y = match y {
            Some(y) => y,
            None => return Outcome::error(Some(c), "user not online"),
        };
        let target = self.registry.session(y).unwrap().user.as_ref().unwrap().lodestone_id;
        if target == me {
            return Outcome::error(Some(c), "cannot invite self");
        }
        if self.store.user(target).is_none() {
            return Outcome::error(Some(c), "user not found");
        }
        if self.store.rank_of(c, target).is_some() {
            return Outcome::error(Some(c), "already in channel");
        }
        if self.store.is_invited(c, target) {
            return Outcome::error(Some(c), "already invited");
        }
        let mut deliveries: Vec<Delivery> = Vec::new();
        self.fan_out(c, ResponseKind::MemberChange(MemberChangeResponse {
            channel: c,
            name: req.name.clone(),
            world: req.world,
            kind: MemberChangeKind::Invite { inviter: name.clone(), inviter_world: id_from_world(world) },
        }), &mut deliveries);
        self.store.put_invite(c, target, me);
        let pk = self.registry.session(x).unwrap().pk.clone();
        let channel = self.channel_view(c);
        let mut conns: Vec<u64> = Vec::new();
        conns.push(y);
        proof {
            assert(conns@ =~= seq![y]);
        }
        deliveries.push(Delivery {
            conns,
            message: ResponseContainer {
                number: 0,
                kind: ResponseKind::Invited(InvitedResponse {
                    channel,
                    name,
                    world: id_from_world(world),
                    pk,
                    encrypted_secret: req.encrypted_secret,
                }),
            },
        });
        Outcome {
            reply: Some(ResponseKind::Invite(InviteResponse { channel: c, name: req.name, world: req.world })),
            deliveries,
            evict: None,
            close: false,
            refresh: None,
        }
    }

    /// The connections of the online participants of `c` other than the caller.
    pub open spec fn candidates(&self, x: u64, c: u128) -> Set<u64> {
        Set::new(|y: u64| self.registry.reaches_where(&self.store, c, false, Some(self.id_of(x)), y))
    }

    /// How many peers are asked for a secret among `n` candidates: a tenth,
    /// rounded, but at least one.
    pub open spec fn ask_count(n: nat) -> nat {
        if (n + 5) / 10 == 0 { 1 } else { (n + 5) / 10 }
    }

    /// What asking for a channel secret does.
    pub open spec fn secrets_post(old: &State, new: &State, x: u64, number: u32, req: SecretsRequest, r: Outcome) -> bool {
        &&& (new.store == old.store)
        &&& (new.registry.sessions@ == old.registry.sessions@)
        &&& (new.registry.clients@ == old.registry.clients@)
        &&& (!old.store.is_participant(req.channel, old.id_of(x)) ==> {
            &&& r.is_channel_error(req.channel, "not in that channel"@) && r.only_reply()
            &&& *new == *old
        })
        &&& (old.store.is_participant(req.channel, old.id_of(x))
            && old.candidates(x, req.channel).len() == 0 ==> {
            &&& r.is_channel_error(req.channel, "no other online members"@) && r.only_reply()
            &&& *new == *old
        })
        &&& (old.store.is_participant(req.channel, old.id_of(x))
            && old.candidates(x, req.channel).len() > 0 ==> {
            let n = old.candidates(x, req.channel).len();
            &&& r.reply is None
            &&& r.evict is None && !r.close && r.refresh is None
            &&& r.deliveries@.len() == 1
            &&& r.deliveries@[0].conns@.no_duplicates()
            &&& r.deliveries@[0].conns@.len() == if State::ask_count(n) < n { State::ask_count(n) } else { n }
            &&& forall|i: int| 0 <= i < r.deliveries@[0].conns@.len()
                ==> old.candidates(x, req.channel).contains(#[trigger] r.deliveries@[0].conns@[i])
            &&& r.deliveries@[0].message.number == 0
            &&& r.deliveries@[0].message.kind matches ResponseKind::SendSecrets(ask)
                && ask.channel == req.channel
                && ask.pk@ == old.registry.sessions@[x].pk@
                && new.registry.secrets_requests@ == old.registry.secrets_requests@.insert(
                    ask.request_id,
                    crate::registry::SecretsRequestInfo { lodestone_id: old.id_of(x), channel_id: req.channel, number },
                )
        })
    }

    /// Asks a random tenth (at least one) of the channel's other online
    /// participants to re-share the channel secret with the caller.
    pub fn secrets(&mut self, x: u64, number: u32, req: SecretsRequest) -> (r: Outcome)
        requires
            old(self).wf(),
            old(self).logged_in(x),
        ensures
            final(self).wf(),
            State::secrets_post(old(self), final(self), x, number, req, r),
    {
        let (me, _, _) = self.caller(x);
        let c = req.channel;
        if self.store.rank_or_invite(c, me).is_none() {
            return Outcome::error(Some(c), "not in that channel");
        }
        let conns = self.registry.recipients(&self.store, c, false, Some(me));
        proof {
            assert(conns@.to_set() =~= self.candidates(x, c));
            conns@.unique_seq_to_set();
        }
        if conns.len() == 0 {
            return Outcome::error(Some(c), "no other online members");
        }
        let n = conns.len();
        let amount: usize = if n / 10 + (if n % 10 >= 5 { 1 } else { 0 }) == 0 { 1 } else { n / 10 + (if n % 10 >= 5 { 1 } else { 0 }) };
        proof {
            assert((n + 5) / 10 == n / 10 + (if n % 10 >= 5 { 1int } else { 0int }));
        }
        let chosen = crate::bridge::sample(&conns, amount);
        if chosen.len() == 0 {
            return Outcome::error(Some(c), "no online members found");
        }
        let request_id = crate::bridge::fresh_id();
        self.registry.add_secrets_request(request_id, crate::registry::SecretsRequestInfo { lodestone_id: me, channel_id: c, number });
        let pk = self.registry.session(x).unwrap().pk.clone();
        let mut deliveries: Vec<Delivery> = Vec::new();
        deliveries.push(Delivery {
            conns: chosen,
            message: ResponseContainer {
                number: 0,
                kind: ResponseKind::SendSecrets(SendSecretsResponse { channel: c, request_id, pk }),
            },
        });
        Outcome { reply: None, deliveries, evict: None, close: false, refresh: None }
    }

    /// What a peer's answer to a secret request does.
    pub open spec fn send_secrets_post(old: &State, new: &State, x: u64, req: SendSecretsRequest, r: Outcome) -> bool {
        &&& (new.store == old.store)
        &&& (new.registry.sessions@ == old.registry.sessions@)
        &&& (new.registry.clients@ == old.registry.clients@)
        &&& (new.registry.messages_sent == old.registry.messages_sent)
        &&& (({
            let pending = lookup(old.registry.secrets_requests@, req.request_id);
            if req.encrypted_shared_secret is None || req.encrypted_shared_secret->Some_0@.len() == 0 || pending is None {
                r.reply is None && r.only_reply() && *new == *old
            } else if !old.store.is_participant(pending->Some_0.channel_id, old.id_of(x)) {
                r.is_channel_error(pending->Some_0.channel_id, "not in that channel"@) && r.only_reply()
                    && *new == *old
            } else {
                let info = pending->Some_0;
                &&& new.registry.secrets_requests@ == old.registry.secrets_requests@.remove(req.request_id)
                &&& r.reply is None && r.evict is None && !r.close && r.refresh is None
                &&& match old.registry.holder(info.lodestone_id) {
                    None => r.deliveries@.len() == 0,
                    Some(y) => {
                        &&& r.deliveries@.len() == 1
                        &&& r.deliveries@[0].conns@ == seq![y]
                        &&& r.deliveries@[0].message.number == info.number
                        &&& r.deliveries@[0].message.kind matches ResponseKind::Secrets(sec)
                            && sec.channel == info.channel_id
                            && sec.pk@ == old.registry.sessions@[x].pk@
                            && sec.encrypted_shared_secret == req.encrypted_shared_secret->Some_0
                    },
                }
            }
        }))
    }

    /// A peer's answer to a secret request. The first non-empty answer from a
    /// participant goes to the requester under the request number it asked with;
    /// anything else is dropped.
    pub fn send_secrets(&mut self, x: u64, req: SendSecretsRequest) -> (r: Outcome)
        requires
            old(self).wf(),
            old(self).logged_in(x),
        ensures
            final(self).wf(),
            State::send_secrets_post(old(self), final(self), x, req, r),
    {
        let encrypted = match req.encrypted_shared_secret {
            Some(e) => e,
            None => return Outcome::silent(),
        };
        if encrypted.len() == 0 {
            return Outcome::silent();
        }
        let info = match self.registry.secrets_request(req.request_id) {
            Some(info) => info,
            None => return Outcome::silent(),
        };
        let (me, _, _) = self.caller(x);
        if self.store.rank_or_invite(info.channel_id, me).is_none() {
            return Outcome::error(Some(info.channel_id), "not in that channel");
        }
        self.registry.remove_secrets_request(req.request_id);
        let y = match self.registry.client_conn(info.lodestone_id) {
            Some(y) => y,
            None => return Outcome::silent(),
        };
        let pk = self.registry.session(x).unwrap().pk.clone();
        let mut conns: Vec<u64> = Vec::new();
        conns.push(y);
        proof {
            assert(conns@ =~= seq![y]);
        }
        let mut deliveries: Vec<Delivery> = Vec::new();
        deliveries.push(Delivery {
            conns,
            message: ResponseContainer {
                number: info.number,
                kind: ResponseKind::Secrets(SecretsResponse { channel: info.channel_id, pk, encrypted_shared_secret: encrypted }),
            },
        });
        Outcome { reply: None, deliveries, evict: None, close: false, refresh: None }
    }

    /// `list` holds, in order, one entry for each channel that `u` is a member
    /// of (or with `invited`, invited to), with `u`'s rank; invites show as `Member`.
    pub open spec fn simple_list(&self, u: u64, invited: bool, list: Seq<SimpleChannel>) -> bool {
        let ids = channels_with(&self.store, u, invited, self.store.channel_ids@);
        &&& list.len() == ids.len()
        &&& forall|i: int| 0 <= i < list.len() ==> {
            let c = #[trigger] ids[i];
            &&& list[i].id == c
            &&& list[i].name@ == self.store.name_of(c)
            &&& list[i].rank == if invited { Rank::Member } else { self.store.members_of(c)[u] }
        }
    }

    /// `list` holds, in order, the full object of each channel that `u` is a
    /// member of (or with `invited`, invited to).
    pub open spec fn full_list(&self, u: u64, invited: bool, list: Seq<Channel>) -> bool {
        let ids = channels_with(&self.store, u, invited, self.store.channel_ids@);
        &&& list.len() == ids.len()
        &&& forall|i: int| 0 <= i < list.len() ==> {
            let c = #[trigger] ids[i];
            &&& list[i].id == c
            &&& list[i].name@ == self.store.name_of(c)
            &&& list[i].members@ == member_list(&self.store, &self.registry, c, self.store.user_ids@)
        }
    }

    /// The caller's channels (or, with `invited`, the channels they are
    /// invited to) with the caller's rank in each; invites show as `Member`.
    pub fn simple_channels(&self, u: u64, invited: bool) -> (r: Vec<SimpleChannel>)
        requires
            self.wf(),
        ensures
            self.simple_list(u, invited, r@),
    {
        let mut out: Vec<SimpleChannel> = Vec::new();
        let mut i: usize = 0;
        while i < self.store.channel_ids.len()
            invariant
                self.wf(),
                i <= self.store.channel_ids@.len(),
                out@.len() == channels_with(&self.store, u, invited, self.store.channel_ids@.subrange(0, i as int)).len(),
                forall|k: int| 0 <= k < out@.len() ==> {
                    let c = #[trigger] channels_with(&self.store, u, invited, self.store.channel_ids@.subrange(0, i as int))[k];
                    &&& out@[k].id == c
                    &&& out@[k].name@ == self.store.name_of(c)
                    &&& out@[k].rank == if invited { Rank::Member } else { self.store.members_of(c)[u] }
                },
            decreases self.store.channel_ids@.len() - i,
        {
            let c = self.store.channel_ids[i];
            assert(self.store.channel_ids@.contains(c));
            let rec = self.store.channels.get(&c).unwrap();
            let ghost prev = channels_with(&self.store, u, invited, self.store.channel_ids@.subrange(0, i as int));
            let ghost prev_out = out@;
            let rank = if invited {
                if rec.invites.contains_key(&u) { Some(Rank::Member) } else { None }
            } else {
                match rec.members.get(&u) {
                    Some(r) => Some(*r),
                    None => None,
                }
            };
            if let Some(rank) = rank {
                out.push(SimpleChannel { id: c, name: rec.name.clone(), rank });
            }
            proof {
                let ids = self.store.channel_ids@.subrange(0, i as int + 1);
                assert(ids.drop_last() =~= self.store.channel_ids@.subrange(0, i as int));
                assert(ids.last() == c);
                let next = channels_with(&self.store, u, invited, ids);
                assert forall|k: int| 0 <= k < out@.len() implies {
                    let c2 = #[trigger] next[k];
                    &&& out@[k].id == c2
                    &&& out@[k].name@ == self.store.name_of(c2)
                    &&& out@[k].rank == if invited { Rank::Member } else { self.store.members_of(c2)[u] }
                } by {
                    if k < prev.len() {
                        assert(next[k] == prev[k]);
                        assert(out@[k] == prev_out[k]);
                    }
                }
            }
            i = i + 1;
        }
        proof {
            assert(self.store.channel_ids@.subrange(0, i as int) =~= self.store.channel_ids@);
        }
        out
    }

    /// The full objects of the caller's channels (or of those they are invited to).
    pub fn full_channels(&self, u: u64, invited: bool) -> (r: Vec<Channel>)
        requires
            self.wf(),
        ensures
            self.full_list(u, invited, r@),
    {
        let mut out: Vec<Channel> = Vec::new();
        let mut i: usize = 0;
        while i < self.store.channel_ids.len()
            invariant
                self.wf(),
                i <= self.store.channel_ids@.len(),
                out@.len() == channels_with(&self.store, u, invited, self.store.channel_ids@.subrange(0, i as int)).len(),
                forall|k: int| 0 <= k < out@.len() ==> {
                    let c = #[trigger] channels_with(&self.store, u, invited, self.store.channel_ids@.subrange(0, i as int))[k];
                    &&& out@[k].id == c
                    &&& out@[k].name@ == self.store.name_of(c)
                    &&& out@[k].members@ == member_list(&self.store, &self.registry, c, self.store.user_ids@)
                },
            decreases self.store.channel_ids@.len() - i,
        {
            let c = self.store.channel_ids[i];
            assert(self.store.channel_ids@.contains(c));
            let ghost prev = channels_with(&self.store, u, invited, self.store.channel_ids@.subrange(0, i as int));
            let ghost prev_out = out@;
            let takes_part = if invited { self.store.is_invited(c, u) } else { self.store.rank_of(c, u).is_some() };
            if takes_part {
                out.push(self.channel_view(c));
            }
            proof {
                let ids = self.store.channel_ids@.subrange(0, i as int + 1);
                assert(ids.drop_last() =~= self.store.channel_ids@.subrange(0, i as int));
                assert(ids.last() == c);
                let next = channels_with(&self.store, u, invited, ids);
                assert forall|k: int| 0 <= k < out@.len() implies {
                    let c2 = #[trigger] next[k];
                    &&& out@[k].id == c2
                    &&& out@[k].name@ == self.store.name_of(c2)
                    &&& out@[k].members@ == member_list(&self.store, &self.registry, c2, self.store.user_ids@)
                } by {
                    if k < prev.len() {
                        assert(next[k] == prev[k]);
                        assert(out@[k] == prev_out[k]);
                    }
                }
            }
            i = i + 1;
        }
        proof {
            assert(self.store.channel_ids@.subrange(0, i as int) =~= self.store.channel_ids@);
        }
        out
    }

    /// What a list request answers.
    pub open spec fn list_post(s: &State, x: u64, req: ListRequest, r: Outcome) -> bool {
        &&& r.only_reply()
        &&& match req {
            ListRequest::All => r.reply matches Some(ResponseKind::List(ListResponse::All { channels, invites }))
                && s.full_list(s.id_of(x), false, channels@) && s.full_list(s.id_of(x), true, invites@),
            ListRequest::Channels => r.reply matches Some(ResponseKind::List(ListResponse::Channels(list)))
                && s.simple_list(s.id_of(x), false, list@),
            ListRequest::Invites => r.reply matches Some(ResponseKind::List(ListResponse::Invites(list)))
                && s.simple_list(s.id_of(x), true, list@),
            ListRequest::Members(c) => if s.store.is_participant(c, s.id_of(x)) {
                r.reply matches Some(ResponseKind::List(ListResponse::Members { id, members }))
                    && id == c && members@ == member_list(&s.store, &s.registry, c, s.store.user_ids@)
            } else {
                r.is_channel_error(c, "user not in channel"@)
            },
        }
    }

    /// Lists the caller's channels, invites, or the people of one channel
    /// that the caller takes part in.
    pub fn list(&self, x: u64, req: ListRequest) -> (r: Outcome)
        requires
            self.wf(),
            self.logged_in(x),
        ensures
            State::list_post(self, x, req, r),
    {
        let (me, _, _) = self.caller(x);
        let resp = match req {
            ListRequest::All => ListResponse::All {
                channels: self.full_channels(me, false),
                invites: self.full_channels(me, true),
            },
            ListRequest::Channels => ListResponse::Channels(self.simple_channels(me, false)),
            ListRequest::Invites => ListResponse::Invites(self.simple_channels(me, true)),
            ListRequest::Members(c) => {
                if self.store.rank_or_invite(c, me).is_none() {
                    return Outcome::error(Some(c), "user not in channel");
                }
                let channel = self.channel_view(c);
                ListResponse::Members { id: c, members: channel.members }
            },
        };
        Outcome::reply(ResponseKind::List(resp))
    }
    /// What authenticating with a key whose short token is `short` and whose
    /// long token is `long` does: the session logs in as a user holding that
    /// key, or gets "invalid key".
    pub open spec fn login_post(
        old: &State,
        new: &State,
        x: u64,
        req: AuthenticateRequest,
        short: Seq<char>,
        long: Seq<char>,
        now: i64,
        r: Outcome,
    ) -> bool {
        let hash = hex_of(sha3_256_of(long));
        if forall|u: u64| #[trigger] old.store.users@.contains_key(u)
            ==> !(old.store.users@[u].key_short@ == short && old.store.users@[u].key_hash@ == hash) {
            &&& r.is_auth_error("invalid key"@)
            &&& r.only_reply()
            &&& *new == *old
        } else {
            exists|u: u64| {
                let row = #[trigger] old.store.users@[u];
                &&& old.store.users@.contains_key(u)
                &&& row.key_short@ == short && row.key_hash@ == hash
                &&& new.store == old.store
                &&& new.registry.clients@ == old.registry.clients@.insert(u, x)
                &&& new.registry.sessions@[x] == ClientState {
                    user: Some(User { lodestone_id: u, name: row.name, world: row.world }),
                    pk: req.pk,
                    allow_invites: req.allow_invites,
                }
                &&& new.registry.sessions@.dom() == old.registry.sessions@.dom()
                &&& r.evict == old.registry.holder(u)
                &&& match r.evict {
                    Some(y) => new.registry.sessions@[y].user is None,
                    None => true,
                }
                &&& r.refresh == (if now - row.last_updated >= REFRESH_AFTER_SECONDS { Some(u) } else { None })
                &&& r.reply == Some(ResponseKind::Authenticate(AuthenticateResponse { error: None }))
                &&& !r.close && r.deliveries@.len() == 0
            }
        }
    }

    /// The key splits into three parts, and logging in went as `login_post`
    /// says for its short and long tokens.
    pub open spec fn login_done(
        old: &State,
        new: &State,
        x: u64,
        req: AuthenticateRequest,
        now: i64,
        r: Outcome,
    ) -> bool {
        exists|p: Seq<char>, sh: Seq<char>, lo: Seq<char>| {
            &&& #[trigger] key_text(p, sh, lo) == req.key.value()@
            &&& underscores(p) == 0 && underscores(sh) == 0 && underscores(lo) == 0
            &&& #[trigger] State::login_post(old, new, x, req, sh, lo, now, r)
        }
    }

    /// What logging in at time `now` does.
    pub open spec fn authenticate_post(old: &State, new: &State, x: u64, req: AuthenticateRequest, now: i64, r: Outcome) -> bool {
        &&& (old.logged_in(x) ==> {
            &&& r.is_auth_error("already logged in"@)
            &&& r.only_reply()
            &&& *new == *old
        })
        &&& (!old.logged_in(x) && underscores(req.key.value()@) != 2 ==> {
            &&& r.is_auth_error("invalid key"@)
            &&& r.only_reply()
            &&& *new == *old
        })
        &&& (!old.logged_in(x) && underscores(req.key.value()@) == 2 ==> State::login_done(
            old,
            new,
            x,
            req,
            now,
            r,
        ))
    }

    /// Logs a session in with an API key; a previous session of the same
    /// user is evicted. A stale profile is handed to the refresher.
    pub fn authenticate_at(&mut self, x: u64, req: AuthenticateRequest, now: i64) -> (r: Outcome)
        requires
            old(self).wf(),
            old(self).registry.sessions@.contains_key(x),
        ensures
            final(self).wf(),
            State::authenticate_post(old(self), final(self), x, req, now, r),
    {
        if self.registry.session(x).unwrap().user.is_some() {
            return Outcome::reply(ResponseKind::Authenticate(AuthenticateResponse::error("already logged in")));
        }
        let key = match crate::bridge::parse_api_key(req.key.as_inner()) {
            Some(key) => key,
            None => return Outcome::reply(ResponseKind::Authenticate(AuthenticateResponse::error("invalid key"))),
        };
        let ghost sh = key.short_token@;
        let ghost lo = key.long_token@;
        let hash = hash_key(&key);
        let found = self.store.find_user_by_key(&key.short_token, &hash);
        let u = match found {
            Some(u) => u,
            None => {
                let o = Outcome::reply(ResponseKind::Authenticate(AuthenticateResponse::error("invalid key")));
                proof {
                    assert(State::login_post(old(self), self, x, req, sh, lo, now, o));
                }
                return o;
            },
        };
        let row = self.store.user(u).unwrap();
        let user = User { lodestone_id: u, name: row.name.clone(), world: row.world };
        let stale = (now as i128) - (row.last_updated as i128) >= REFRESH_AFTER_SECONDS as i128;
        let ghost req_pk = req.pk;
        let evicted = self.registry.install(x, user, req.pk, req.allow_invites);
        let o = Outcome {
            reply: Some(ResponseKind::Authenticate(AuthenticateResponse::success())),
            deliveries: Vec::new(),
            evict: evicted,
            close: false,
            refresh: if stale { Some(u) } else { None },
        };
        proof {
            assert(self.registry.sessions@.dom() =~= old(self).registry.sessions@.dom());
            assert(State::login_post(old(self), self, x, req, sh, lo, now, o));
        }
        o
    }

    /// Logs a session in with an API key at the current time.
    pub fn authenticate(&mut self, x: u64, req: AuthenticateRequest) -> (r: Outcome)
        requires
            old(self).wf(),
            old(self).registry.sessions@.contains_key(x),
        ensures
            final(self).wf(),
            old(self).logged_in(x) ==> {
                &&& r.is_auth_error("already logged in"@)
                &&& r.only_reply()
                &&& *final(self) == *old(self)
            },
            !old(self).logged_in(x) && underscores(req.key.value()@) != 2 ==> r.is_auth_error("invalid key"@)
                && r.only_reply() && *final(self) == *old(self),
            !old(self).logged_in(x) && underscores(req.key.value()@) == 2 ==> (exists|now: i64| #[trigger] State::login_done(old(self), final(self), x, req, now, r)),
    {
        let now = crate::bridge::now_seconds();
        self.authenticate_at(x, req, now)
    }
    /// Starts an unauthenticated session; `None` once connection ids run out.
    pub fn open_session(&mut self) -> (r: Option<u64>)
        requires
            old(self).wf(),
        ensures
            final(self).wf(),
            final(self).store == old(self).store,
            final(self).registry.clients@ == old(self).registry.clients@,
            r matches Some(x) ==> !old(self).registry.sessions@.contains_key(x)
                && final(self).registry.sessions@.contains_key(x) && !final(self).logged_in(x),
            r is None <==> old(self).registry.next_conn == u64::MAX,
            r is None ==> *final(self) == *old(self),
    {
        self.registry.open_session()
    }

    /// Ends session `x`. Only a session that still holds its identity takes
    /// it offline, so an evicted session leaves its successor in place.
    pub fn close_session(&mut self, x: u64)
        requires
            old(self).wf(),
        ensures
            final(self).wf(),
            final(self).store == old(self).store,
            final(self).registry.sessions@ == old(self).registry.sessions@.remove(x),
            final(self).registry.clients@ == (if old(self).logged_in(x) {
                old(self).registry.clients@.remove(old(self).id_of(x))
            } else {
                old(self).registry.clients@
            }),
    {
        self.registry.close_session(x);
    }

    /// Stores a refreshed profile (name and world) for user `k`, in the
    /// users table and in `k`'s live session.
    pub fn refresh_profile(&mut self, k: u64, name: String, world: World, now: i64)
        requires
            old(self).wf(),
        ensures
            final(self).wf(),
            final(self).store.channels@ == old(self).store.channels@,
            final(self).store.users@.dom() == old(self).store.users@.dom(),
            old(self).store.users@.contains_key(k) ==> final(self).store.users@[k].name@ == name@
                && final(self).store.users@[k].world == world && final(self).store.users@[k].last_updated == now,
            final(self).registry.clients@ == old(self).registry.clients@,
            old(self).registry.clients@.contains_key(k) ==> final(self).registry.sessions@[old(self).registry.clients@[k]].user
                == Some(User { lodestone_id: k, name, world }),
    {
        self.store.refresh_user(k, name.clone(), world, now);
        self.registry.refresh_user(k, name, world);
        proof {
            assert forall|c: u128| #[trigger] self.store.channels@.contains_key(c) implies self.store.channels@[c].has_admin() by {
                assert(self.store.channels@[c] == old(self).store.channels@[c]);
            }
        }
    }

    /// Registration, first step: the world named by id, or "invalid world id".
    pub fn register_target(req: &RegisterRequest) -> (r: Result<World, Outcome>)
        ensures
            match r {
                Ok(w) => crate::world::world_of_id(req.world) == Some(w),
                Err(o) => crate::world::world_of_id(req.world) is None && o.is_error("invalid world id"@) && o.only_reply(),
            },
    {
        match crate::world::world_from_id(req.world) {
            Some(w) => Ok(w),
            None => Err(Outcome::error(None, "invalid world id")),
        }
    }

    /// The reply when no search page holds the character.
    pub fn character_not_found() -> (r: Outcome)
        ensures
            r.is_error("could not find character"@),
            r.only_reply(),
    {
        Outcome::error(None, "could not find character")
    }

    /// What the second registration step does with `fresh` as the new challenge.
    pub open spec fn challenge_post(old: &State, new: &State, id: u64, completed: bool, now: i64, fresh: String, r: RegisterStep) -> bool {
        let pending = lookup(old.store.verifications@, id);
        if pending is None || now - pending->Some_0.created_at > CHALLENGE_LIFETIME_SECONDS {
            &&& new.store.verifications@ == old.store.verifications@.insert(
                id,
                crate::store::Verification { challenge: fresh, created_at: now },
            )
            &&& r matches RegisterStep::Done(o) && o.only_reply()
                && o.reply == Some(ResponseKind::Register(RegisterResponse::Challenge { challenge: fresh }))
        } else if completed {
            r == RegisterStep::Verify(pending->Some_0.challenge) && *new == *old
        } else {
            &&& *new == *old
            &&& r matches RegisterStep::Done(o) && o.only_reply()
                && o.reply == Some(ResponseKind::Register(RegisterResponse::Challenge { challenge: pending->Some_0.challenge }))
        }
    }

    /// Registration, second step: a character without a challenge, or whose
    /// challenge is older than five minutes, gets `fresh`. Otherwise the
    /// pending challenge is handed out again, or, once the client says it is
    /// in place, the profile is to be checked for it.
    pub fn register_challenge_with(&mut self, id: u64, completed: bool, now: i64, fresh: String) -> (r: RegisterStep)
        requires
            old(self).wf(),
        ensures
            final(self).wf(),
            final(self).registry == old(self).registry,
            final(self).store.channels@ == old(self).store.channels@,
            final(self).store.users@ == old(self).store.users@,
            State::challenge_post(old(self), final(self), id, completed, now, fresh, r),
    {
        let pending = match self.store.verification(id) {
            Some(v) => Some((v.challenge.clone(), v.created_at)),
            None => None,
        };
        let renew = match &pending {
            Some((_, created_at)) => (now as i128) - (*created_at as i128) > CHALLENGE_LIFETIME_SECONDS as i128,
            None => true,
        };
        if renew {
            self.store.put_verification(id, fresh.clone(), now);
            proof {
                assert forall|c: u128| #[trigger] self.store.channels@.contains_key(c) implies self.store.channels@[c].has_admin() by {
                    assert(self.store.channels@[c] == old(self).store.channels@[c]);
                }
            }
            return RegisterStep::Done(Outcome::reply(ResponseKind::Register(RegisterResponse::Challenge { challenge: fresh })));
        }
        let (challenge, _) = pending.unwrap();
        if completed {
            RegisterStep::Verify(challenge)
        } else {
            RegisterStep::Done(Outcome::reply(ResponseKind::Register(RegisterResponse::Challenge { challenge })))
        }
    }

    /// Registration, second step, with a fresh random challenge of 32 bytes in hex.
    pub fn register_challenge(&mut self, id: u64, completed: bool, now: i64) -> (r: RegisterStep)
        requires
            old(self).wf(),
        ensures
            final(self).wf(),
            final(self).registry == old(self).registry,
            final(self).store.channels@ == old(self).store.channels@,
            final(self).store.users@ == old(self).store.users@,
            exists|fresh: String| #[trigger] State::challenge_post(old(self), final(self), id, completed, now, fresh, r)
                && fresh@.len() == 64 && (exists|b: Seq<u8>| b.len() == 32 && #[trigger] hex_of(b) == fresh@),
    {
        let bytes = crate::bridge::random_bytes_32();
        let fresh = crate::bridge::hex_encode(&bytes);
        proof {
            crate::bridge::lemma_hex_len(bytes@);
        }
        self.register_challenge_with(id, completed, now, fresh)
    }

    /// Registration, last step: if the character's profile text holds the
    /// challenge, the challenge is spent, the user row is written with `key`
    /// (kept only as its short token and hashed long token), and the key is
    /// handed out once; otherwise "failure".
    pub fn register_verify_with(
        &mut self,
        id: u64,
        name: String,
        world: World,
        challenge: &String,
        profile_text: &String,
        now: i64,
        key: ApiKeyParts,
        key_text: String,
    ) -> (r: Outcome)
        requires
            old(self).wf(),
        ensures
            final(self).wf(),
            final(self).registry == old(self).registry,
            r.only_reply(),
            !contains_sub(profile_text@, challenge@) ==> {
                &&& r.reply == Some(ResponseKind::Register(RegisterResponse::Failure))
                &&& *final(self) == *old(self)
            },
            contains_sub(profile_text@, challenge@)
                && old(self).store.key_taken(id, key.short_token@, hex_of(sha3_256_of(key.long_token@))) ==> {
                &&& r.is_error("could not store key"@)
                &&& *final(self) == *old(self)
            },
            contains_sub(profile_text@, challenge@)
                && !old(self).store.key_taken(id, key.short_token@, hex_of(sha3_256_of(key.long_token@))) ==> {
                let row = final(self).store.users@[id];
                &&& final(self).store.verifications@ == old(self).store.verifications@.remove(id)
                &&& final(self).store.users@ == old(self).store.users@.insert(id, row)
                &&& row.lodestone_id == id && row.name == name && row.world == world && row.last_updated == now
                &&& row.key_short == key.short_token
                &&& row.key_hash@ == hex_of(sha3_256_of(key.long_token@))
                &&& final(self).store.channels@ == old(self).store.channels@
                &&& r.reply matches Some(ResponseKind::Register(RegisterResponse::Success { key: k })) && k.value() == key_text
            },
    {
        if !crate::bridge::text_contains(profile_text, challenge) {
            return Outcome::reply(ResponseKind::Register(RegisterResponse::Failure));
        }
        let hash = hash_key(&key);
        if let Some(holder) = self.store.find_user_by_key(&key.short_token, &hash) {
            if holder != id {
                return Outcome::error(None, "could not store key");
            }
        }
        self.store.remove_verification(id);
        self.store.put_user(crate::store::UserRow {
            lodestone_id: id,
            name,
            world,
            key_short: key.short_token,
            key_hash: hash,
            last_updated: now,
        });
        proof {
            assert forall|c: u128| #[trigger] self.store.channels@.contains_key(c) implies self.store.channels@[c].has_admin() by {
                assert(self.store.channels@[c] == old(self).store.channels@[c]);
            }
        }
        Outcome::reply(ResponseKind::Register(RegisterResponse::Success { key: crate::redacted::Redacted::new(key_text) }))
    }

    /// `key` is an API key under the prefix `extrachat` whose parts hold no
    /// underscore, and `row` stores its short token and hashed long token.
    pub open spec fn issued_key(key: Seq<char>, row: UserRow) -> bool {
        exists|sh: Seq<char>, lo: Seq<char>| #[trigger] key_text("extrachat"@, sh, lo) == key
            && underscores(sh) == 0 && underscores(lo) == 0
            && row.key_short@ == sh && row.key_hash@ == hex_of(sha3_256_of(lo))
    }

    /// Registration, last step, with a newly generated key under the prefix `extrachat`.
    pub fn register_verify(&mut self, id: u64, name: String, world: World, challenge: &String, profile_text: &String, now: i64) -> (r: Outcome)
        requires
            old(self).wf(),
        ensures
            final(self).wf(),
            final(self).registry == old(self).registry,
            r.only_reply(),
            !contains_sub(profile_text@, challenge@) ==> r.reply == Some(ResponseKind::Register(RegisterResponse::Failure))
                && *final(self) == *old(self),
            contains_sub(profile_text@, challenge@) && !(r.reply matches Some(ResponseKind::Register(RegisterResponse::Success { .. }))) ==> {
                &&& r.is_error("could not store key"@)
                &&& *final(self) == *old(self)
            },
            r.reply matches Some(ResponseKind::Register(RegisterResponse::Success { key: k })) ==> {
                let row = final(self).store.users@[id];
                &&& contains_sub(profile_text@, challenge@)
                &&& final(self).store.verifications@ == old(self).store.verifications@.remove(id)
                &&& final(self).store.users@ == old(self).store.users@.insert(id, row)
                &&& row.name == name && row.world == world && row.last_updated == now
                &&& State::issued_key(k.value()@, row)
            },
    {
        let (key, text) = crate::bridge::generate_api_key("extrachat");
        self.register_verify_with(id, name, world, challenge, profile_text, now, key, text)
    }

    /// What serving a request of kind `kind` and number `number` does; for
    /// the kinds that need a login, the session is logged in.
    pub open spec fn serves(old: &State, new: &State, x: u64, number: u32, kind: RequestKind, now: i64, o: Outcome) -> bool {
        match kind {
            RequestKind::Ping(_) => o.reply == Some(ResponseKind::Ping(PingResponse {})) && o.only_reply() && *new == *old,
            RequestKind::Version(v) => State::version_post(v, o) && *new == *old,
            RequestKind::Register(_) => false,
            RequestKind::Authenticate(a) => State::authenticate_post(old, new, x, a, now, o),
            RequestKind::Message(m) => State::message_post(old, new, x, m, o),
            RequestKind::Create(c) => State::create_random_post(old, new, x, c, o),
            RequestKind::Disband(d) => State::disband_post(old, new, x, d, o),
            RequestKind::Invite(i) => exists|y: Option<u64>| old.invitable(i.name@, i.world, y)
                && #[trigger] State::invite_post(old, new, x, i, y, o),
            RequestKind::Join(j) => State::join_post(old, new, x, j, o),
            RequestKind::Leave(l) => State::leave_post(old, new, x, l, o),
            RequestKind::Kick(k) => exists|t: Option<u64>| old.resolves(k.name@, k.world, t)
                && #[trigger] State::kick_post(old, new, x, k, t, o),
            RequestKind::List(l) => State::list_post(old, x, l, o) && *new == *old,
            RequestKind::Promote(p) => exists|t: Option<u64>| old.resolves(p.name@, p.world, t)
                && #[trigger] State::promote_post(old, new, x, p, t, o),
            RequestKind::Update(u) => State::update_post(old, new, x, u, o),
            RequestKind::PublicKey(k) => State::public_key_post(old, k, o) && *new == *old,
            RequestKind::Secrets(q) => State::secrets_post(old, new, x, number, q, o),
            RequestKind::SendSecrets(q) => State::send_secrets_post(old, new, x, q, o),
            RequestKind::AllowInvites(a) => State::allow_invites_post(old, new, x, a, o),
            RequestKind::DeleteAccount(_) => State::delete_account_post(old, new, x, o),
        }
    }

    /// What routing a request does: registration is handed back; before
    /// login only ping, version and authenticate are served and anything
    /// else gets "not logged in" with no change; otherwise the request is
    /// served as `serves` says.
    pub open spec fn routed(old: &State, new: &State, x: u64, req: RequestContainer, now: i64, r: Step) -> bool {
        if req.kind is Register {
            r == Step::Register(req.kind->Register_0) && *new == *old
        } else if !old.logged_in(x) && !(req.kind is Ping || req.kind is Version || req.kind is Authenticate) {
            &&& r matches Step::Done(o) && o.is_error("not logged in"@) && o.only_reply()
            &&& *new == *old
        } else {
            r matches Step::Done(o) && State::serves(old, new, x, req.number, req.kind, now, o)
        }
    }

    /// Routes one request of session `x` to its handler. Registration needs
    /// the character directory, so it is handed back to the caller.
    pub fn handle_at(&mut self, x: u64, req: RequestContainer, now: i64) -> (r: Step)
        requires
            old(self).wf(),
            old(self).registry.sessions@.contains_key(x),
        ensures
            final(self).wf(),
            State::routed(old(self), final(self), x, req, now, r),
    {
        let logged_in = self.registry.session(x).unwrap().user.is_some();
        let o = match req.kind {
            RequestKind::Ping(_) => self.ping(),
            RequestKind::Version(v) => self.version(v),
            RequestKind::Register(reg) => return Step::Register(reg),
            RequestKind::Authenticate(a) => self.authenticate_at(x, a, now),
            kind => {
                if !logged_in {
                    return Step::Done(Outcome::error(None, "not logged in"));
                }
                match kind {
                    RequestKind::Message(m) => self.message(x, m),
                    RequestKind::Create(c) => self.create(x, c),
                    RequestKind::Disband(d) => self.disband(x, d),
                    RequestKind::Invite(i) => self.invite(x, i),
                    RequestKind::Join(j) => self.join(x, j),
                    RequestKind::Leave(l) => self.leave(x, l),
                    RequestKind::Kick(k) => self.kick(x, k),
                    RequestKind::List(l) => self.list(x, l),
                    RequestKind::Promote(p) => self.promote(x, p),
                    RequestKind::Update(u) => self.update(x, u),
                    RequestKind::PublicKey(p) => self.public_key(p),
                    RequestKind::Secrets(s) => self.secrets(x, req.number, s),
                    RequestKind::SendSecrets(s) => self.send_secrets(x, s),
                    RequestKind::AllowInvites(a) => self.allow_invites(x, a),
                    RequestKind::DeleteAccount(_) => self.delete_account(x),
                    _ => Outcome::error(None, "not yet implemented"),
                }
            },
        };
        Step::Done(o)
    }

    /// Routes one request of session `x` at the current time.
    pub fn handle(&mut self, x: u64, req: RequestContainer) -> (r: Step)
        requires
            old(self).wf(),
            old(self).registry.sessions@.contains_key(x),
        ensures
            final(self).wf(),
            exists|now: i64| #[trigger] State::routed(old(self), final(self), x, req, now, r),
    {
        let now = crate::bridge::now_seconds();
        self.handle_at(x, req, now)
    }
}

/// What a request leads to: an outcome, or a registration that needs the
/// character directory before it can go on.
pub enum Step {
    Done(Outcome),
    Register(RegisterRequest),
}

/// What the second registration step leads to: a reply, or a check of the
/// profile text against this challenge.
pub enum RegisterStep {
    Done(Outcome),
    Verify(String),
}

/// Seconds for which a registration challenge stays valid.
pub const CHALLENGE_LIFETIME_SECONDS: i64 = 300;

/// A character found by the directory search.
pub struct CharacterHit {
    pub id: u64,
    pub name: String,
    pub world: World,
}

/// The first hit that is exactly this character, if any.
pub fn find_character(hits: &Vec<CharacterHit>, name: &String, world: World) -> (r: Option<u64>)
    ensures
        match r {
            Some(id) => exists|i: int| 0 <= i < hits@.len() && (#[trigger] hits@[i]).id == id
                && hits@[i].name@ == name@ && hits@[i].world == world
                && forall|j: int| 0 <= j < i ==> !((#[trigger] hits@[j]).name@ == name@ && hits@[j].world == world),
            None => forall|i: int| 0 <= i < hits@.len() ==> !((#[trigger] hits@[i]).name@ == name@ && hits@[i].world == world),
        },
{
    let mut i: usize = 0;
    while i < hits.len()
        invariant
            i <= hits@.len(),
            forall|j: int| 0 <= j < i ==> !((#[trigger] hits@[j]).name@ == name@ && hits@[j].world == world),
        decreases hits@.len() - i,
    {
        if hits[i].name == *name && hits[i].world == world {
            return Some(hits[i].id);
        }
        i = i + 1;
    }
    None
}

/// The search page to read after `page`, if `page` was not the last.
pub fn next_page(page: u32, total_pages: u32) -> (r: Option<u32>)
    ensures
        r == (if page < total_pages { Some((page + 1) as u32) } else { None::<u32> }),
{
    if page < total_pages {
        Some(page + 1)
    } else {
        None
    }
}

/// Seconds to wait before the next profile fetch, so that fetches stay at
/// least five seconds apart.
pub fn refresh_wait(last: i64, now: i64) -> (r: u64)
    ensures
        r == (if now - last >= 5 { 0 } else if now - last <= 0 { 5 } else { 5 - (now - last) }),
{
    let gap = (now as i128) - (last as i128);
    if gap >= 5 {
        0
    } else if gap <= 0 {
        5
    } else {
        (5 - gap) as u64
    }
}

impl Channel {
    /// The full object of channel `id`, if it exists.
    pub fn get(state: &State, id: u128) -> (r: Option<Channel>)
        requires
            state.wf(),
        ensures
            r is Some <==> state.store.has_channel(id),
            r matches Some(ch) ==> ch.id == id && ch.name@ == state.store.name_of(id)
                && ch.members@ == member_list(&state.store, &state.registry, id, state.store.user_ids@),
    {
        if state.store.contains_channel(id) {
            Some(state.channel_view(id))
        } else {
            None
        }
    }
}

impl SimpleChannel {
    /// The channels `u` is a member of, with `u`'s rank in each.
    pub fn get_all_for_user(state: &State, u: u64) -> (r: Vec<SimpleChannel>)
        requires
            state.wf(),
        ensures
            state.simple_list(u, false, r@),
    {
        state.simple_channels(u, false)
    }

    /// The channels `u` is invited to, each shown with rank `Member`.
    pub fn get_invites_for_user(state: &State, u: u64) -> (r: Vec<SimpleChannel>)
        requires
            state.wf(),
        ensures
            state.simple_list(u, true, r@),
    {
        state.simple_channels(u, true)
    }
}

/// Seconds after which a logged-in user's cached profile is refreshed.
pub const REFRESH_AFTER_SECONDS: i64 = 7200;

/// The stored form of an API key's secret half: the hex SHA3-256 of the long token.
pub fn hash_key(key: &ApiKeyParts) -> (r: String)
    ensures
        r@ == hex_of(sha3_256_of(key.long_token@)),
{
    let digest = crate::bridge::sha3_256(&key.long_token);
    crate::bridge::hex_encode(&digest)
}

/// The ids among `ids` of the channels that `u` is a member of, or with
/// `invited` the channels `u` is invited to, in that order.
pub open spec fn channels_with(store: &Store, u: u64, invited: bool, ids: Seq<u128>) -> Seq<u128>
    decreases ids.len(),
{
    if ids.len() == 0 {
        Seq::empty()
    } else {
        let rest = channels_with(store, u, invited, ids.drop_last());
        let takes_part = if invited {
            store.invites_of(ids.last()).contains_key(u)
        } else {
            store.members_of(ids.last()).contains_key(u)
        };
        if takes_part {
            rest.push(ids.last())
        } else {
            rest
        }
    }
}

/// The session is logged in as a user with this name on the world with this id.
pub open spec fn shows_as(s: ClientState, name: Seq<char>, world: u16) -> bool {
    &&& s.user is Some
    &&& s.user->Some_0.name@ == name
    &&& world_id(s.user->Some_0.world) == world
}

} // verus!
