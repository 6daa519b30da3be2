use extra_chat_server::bridge::ApiKeyParts;
use extra_chat_server::protocol::{
    AllowInvitesRequest, AuthenticateRequest, CreateRequest, DisbandRequest, InviteRequest, JoinRequest,
    KickRequest, LeaveRequest, ListRequest, ListResponse, MemberChangeKind, MessageRequest, PromoteRequest,
    PublicKeyRequest, RegisterRequest, RegisterResponse, RequestContainer, RequestKind, ResponseKind,
    SecretsRequest, SendSecretsRequest, UpdateKind, UpdateRequest, VersionRequest,
};
use extra_chat_server::rank::Rank;
use extra_chat_server::redacted::Redacted;
use extra_chat_server::server::{
    find_character, hash_key, next_page, refresh_wait, CharacterHit, Outcome, RegisterStep, State, Step,
};
use extra_chat_server::world::{id_from_world, World};

const NOW: i64 = 1_700_000_000;
const C1: u128 = 0xC1;

fn key_text(id: u64) -> String {
    format!("extrachat_s{}_l{}", id, id)
}

/// Registers character `id` with a known key, then logs a new session in with it.
fn register(state: &mut State, id: u64, name: &str, world: World) {
    let challenge = format!("challenge{}", id);
    match state.register_challenge_with(id, false, NOW, challenge.clone()) {
        RegisterStep::Done(_) => {}
        RegisterStep::Verify(_) => panic!("expected a challenge"),
    }
    let key = ApiKeyParts {
        prefix: "extrachat".to_string(),
        short_token: format!("s{}", id),
        long_token: format!("l{}", id),
    };
    let profile = format!("hello {} there", challenge);
    let o = state.register_verify_with(id, name.to_string(), world, &challenge, &profile, NOW, key, key_text(id));
    assert!(matches!(o.reply, Some(ResponseKind::Register(RegisterResponse::Success { .. }))));
}

fn login(state: &mut State, id: u64, pk: Vec<u8>, allow_invites: bool) -> (u64, Outcome) {
    let x = state.open_session().unwrap();
    let o = state.authenticate_at(
        x,
        AuthenticateRequest { key: Redacted::new(key_text(id)), pk, allow_invites },
        NOW,
    );
    (x, o)
}

fn error_text(o: &Outcome) -> String {
    match &o.reply {
        Some(ResponseKind::Error(e)) => e.error.clone(),
        _ => panic!("expected an error reply"),
    }
}

const A: u64 = 1001;
const B: u64 = 2002;

/// A and B registered and online; A admin of C1 named AA BB.
fn two_users() -> (State, u64, u64) {
    let mut s = State::new();
    register(&mut s, A, "Alice Aa", World::Ravana);
    register(&mut s, B, "Bob Bb", World::Bismarck);
    let (xa, _) = login(&mut s, A, vec![0xA1], true);
    let (xb, _) = login(&mut s, B, vec![0xB2], true);
    let o = s.create_with_id(xa, C1, CreateRequest { name: vec![0xAA, 0xBB] });
    assert!(matches!(o.reply, Some(ResponseKind::Create(_))));
    (s, xa, xb)
}

fn invite_b(s: &mut State, xa: u64) -> Outcome {
    s.invite(
        xa,
        InviteRequest { channel: C1, name: "Bob Bb".to_string(), world: 22, encrypted_secret: vec![0x01, 0x02] },
    )
}

#[test]
fn second_login_evicts_first_session() {
    let mut s = State::new();
    register(&mut s, A, "Alice Aa", World::Ravana);
    register(&mut s, B, "Bob Bb", World::Bismarck);
    let (_xa, oa) = login(&mut s, A, vec![1], true);
    assert!(oa.evict.is_none());
    let (xb1, _) = login(&mut s, B, vec![2], true);
    let (xb2, ob2) = login(&mut s, B, vec![3], true);
    assert_eq!(ob2.evict, Some(xb1));
    assert!(s.registry.session(xb1).unwrap().user.is_none());
    s.close_session(xb1);
    assert!(s.registry.contains(B));
    assert_eq!(s.registry.client_conn(B), Some(xb2));
    s.close_session(xb2);
    assert!(!s.registry.contains(B));
}

#[test]
fn create_then_list_channels() {
    let (s, xa, _xb) = two_users();
    let o = s.list(xa, ListRequest::Channels);
    match o.reply {
        Some(ResponseKind::List(ListResponse::Channels(list))) => {
            assert_eq!(list.len(), 1);
            assert_eq!(list[0].id, C1);
            assert_eq!(list[0].name, vec![0xAA, 0xBB]);
            assert_eq!(list[0].rank, Rank::Admin);
        }
        _ => panic!("expected a channel list"),
    }
}

#[test]
fn invite_reaches_target_with_secret() {
    let (mut s, xa, xb) = two_users();
    let o = invite_b(&mut s, xa);
    match &o.reply {
        Some(ResponseKind::Invite(i)) => {
            assert_eq!(i.channel, C1);
            assert_eq!(i.name, "Bob Bb");
            assert_eq!(i.world, 22);
        }
        _ => panic!("expected an invite reply"),
    }
    assert_eq!(o.deliveries.len(), 2);
    assert_eq!(o.deliveries[1].conns, vec![xb]);
    match &o.deliveries[1].message.kind {
        ResponseKind::Invited(inv) => {
            assert_eq!(inv.channel.id, C1);
            assert_eq!(inv.name, "Alice Aa");
            assert_eq!(inv.world, 21);
            assert_eq!(inv.pk, vec![0xA1]);
            assert_eq!(inv.encrypted_secret, vec![0x01, 0x02]);
        }
        _ => panic!("expected an invited envelope"),
    }
    assert!(s.store.is_invited(C1, B));
}

#[test]
fn join_is_announced_to_both() {
    let (mut s, xa, xb) = two_users();
    invite_b(&mut s, xa);
    let o = s.join(xb, JoinRequest { channel: C1 });
    match &o.reply {
        Some(ResponseKind::Join(j)) => assert_eq!(j.channel.id, C1),
        _ => panic!("expected a join reply"),
    }
    let d = &o.deliveries[0];
    let mut conns = d.conns.clone();
    conns.sort();
    let mut want = vec![xa, xb];
    want.sort();
    assert_eq!(conns, want);
    match &d.message.kind {
        ResponseKind::MemberChange(m) => {
            assert_eq!(m.channel, C1);
            assert_eq!(m.name, "Bob Bb");
            assert_eq!(m.world, 22);
            assert_eq!(m.kind, MemberChangeKind::Join);
        }
        _ => panic!("expected a member change"),
    }
    assert_eq!(s.store.rank_of(C1, B), Some(Rank::Member));
    assert!(!s.store.is_invited(C1, B));
}

#[test]
fn message_goes_to_other_members_and_counts() {
    let (mut s, xa, xb) = two_users();
    invite_b(&mut s, xa);
    s.join(xb, JoinRequest { channel: C1 });
    let before = s.registry.messages_sent;
    let o = s.message(xa, MessageRequest { channel: C1, message: vec![0xDE, 0xAD] });
    assert!(o.reply.is_none());
    assert_eq!(s.registry.messages_sent, before + 1);
    assert_eq!(o.deliveries[0].conns, vec![xb]);
    match &o.deliveries[0].message.kind {
        ResponseKind::Message(m) => {
            assert_eq!(m.channel, C1);
            assert_eq!(m.sender, "Alice Aa");
            assert_eq!(m.world, 21);
            assert_eq!(m.message, vec![0xDE, 0xAD]);
        }
        _ => panic!("expected a message"),
    }
}

#[test]
fn message_from_outsider_is_refused_and_not_counted() {
    let (mut s, _xa, xb) = two_users();
    let o = s.message(xb, MessageRequest { channel: C1, message: vec![1] });
    assert_eq!(error_text(&o), "not in channel");
    assert_eq!(s.registry.messages_sent, 0);
}

#[test]
fn secret_recovery_round_trip() {
    let (mut s, xa, xb) = two_users();
    invite_b(&mut s, xa);
    s.join(xb, JoinRequest { channel: C1 });
    let o = s.secrets(xb, 77, SecretsRequest { channel: C1 });
    assert!(o.reply.is_none());
    assert_eq!(o.deliveries[0].conns, vec![xa]);
    let request_id = match &o.deliveries[0].message.kind {
        ResponseKind::SendSecrets(ask) => {
            assert_eq!(ask.channel, C1);
            assert_eq!(ask.pk, vec![0xB2]);
            ask.request_id
        }
        _ => panic!("expected a secret request"),
    };
    let answer = s.send_secrets(xa, SendSecretsRequest { request_id, encrypted_shared_secret: Some(vec![0xFE, 0xED]) });
    assert_eq!(answer.deliveries[0].conns, vec![xb]);
    assert_eq!(answer.deliveries[0].message.number, 77);
    match &answer.deliveries[0].message.kind {
        ResponseKind::Secrets(sec) => {
            assert_eq!(sec.channel, C1);
            assert_eq!(sec.pk, vec![0xA1]);
            assert_eq!(sec.encrypted_shared_secret, vec![0xFE, 0xED]);
        }
        _ => panic!("expected the secret"),
    }
    let again = s.send_secrets(xa, SendSecretsRequest { request_id, encrypted_shared_secret: Some(vec![0xFE, 0xED]) });
    assert!(again.reply.is_none());
    assert!(again.deliveries.is_empty());
}

#[test]
fn secrets_without_other_online_members() {
    let (mut s, xa, _xb) = two_users();
    let o = s.secrets(xa, 5, SecretsRequest { channel: C1 });
    assert_eq!(error_text(&o), "no other online members");
}

#[test]
fn empty_secret_answer_is_dropped() {
    let (mut s, xa, xb) = two_users();
    invite_b(&mut s, xa);
    s.join(xb, JoinRequest { channel: C1 });
    let o = s.secrets(xb, 9, SecretsRequest { channel: C1 });
    let request_id = match &o.deliveries[0].message.kind {
        ResponseKind::SendSecrets(ask) => ask.request_id,
        _ => panic!("expected a secret request"),
    };
    let empty = s.send_secrets(xa, SendSecretsRequest { request_id, encrypted_shared_secret: Some(vec![]) });
    assert!(empty.reply.is_none() && empty.deliveries.is_empty());
    let none = s.send_secrets(xa, SendSecretsRequest { request_id, encrypted_shared_secret: None });
    assert!(none.reply.is_none() && none.deliveries.is_empty());
    let real = s.send_secrets(xa, SendSecretsRequest { request_id, encrypted_shared_secret: Some(vec![7]) });
    assert_eq!(real.deliveries.len(), 1);
}

#[test]
fn invite_join_leave_leaves_only_admin() {
    let (mut s, xa, xb) = two_users();
    invite_b(&mut s, xa);
    s.join(xb, JoinRequest { channel: C1 });
    let o = s.leave(xb, LeaveRequest { channel: C1 });
    match &o.reply {
        Some(ResponseKind::Leave(l)) => assert!(l.error.is_none()),
        _ => panic!("expected a leave reply"),
    }
    assert!(s.store.contains_channel(C1));
    assert_eq!(s.store.member_count(C1), 1);
    assert_eq!(s.store.rank_of(C1, A), Some(Rank::Admin));
    assert!(!s.store.is_invited(C1, B));
}

#[test]
fn invite_decline_leaves_no_trace() {
    let (mut s, xa, xb) = two_users();
    invite_b(&mut s, xa);
    let o = s.leave(xb, LeaveRequest { channel: C1 });
    match &o.deliveries[0].message.kind {
        ResponseKind::MemberChange(m) => assert_eq!(m.kind, MemberChangeKind::InviteDecline),
        _ => panic!("expected a member change"),
    }
    assert!(!s.store.is_invited(C1, B));
    assert_eq!(s.store.rank_of(C1, B), None);
    assert_eq!(s.store.member_count(C1), 1);
}

#[test]
fn admin_cannot_leave_before_promoting() {
    let (mut s, xa, xb) = two_users();
    invite_b(&mut s, xa);
    s.join(xb, JoinRequest { channel: C1 });
    let o = s.leave(xa, LeaveRequest { channel: C1 });
    match &o.reply {
        Some(ResponseKind::Leave(l)) => {
            assert_eq!(l.error.as_deref(), Some("you must promote someone to admin before leaving"))
        }
        _ => panic!("expected a leave reply"),
    }
    assert_eq!(s.store.rank_of(C1, A), Some(Rank::Admin));
}

#[test]
fn last_member_leaving_deletes_channel() {
    let (mut s, xa, _xb) = two_users();
    let o = s.leave(xa, LeaveRequest { channel: C1 });
    assert!(o.deliveries.is_empty());
    assert!(!s.store.contains_channel(C1));
}

#[test]
fn create_disband_then_join_fails() {
    let (mut s, xa, xb) = two_users();
    invite_b(&mut s, xa);
    let o = s.disband(xa, DisbandRequest { channel: C1 });
    let mut conns = o.deliveries[0].conns.clone();
    conns.sort();
    let mut want = vec![xa, xb];
    want.sort();
    assert_eq!(conns, want);
    assert!(matches!(o.deliveries[0].message.kind, ResponseKind::Disband(_)));
    assert!(!s.store.contains_channel(C1));
    let j = s.join(xb, JoinRequest { channel: C1 });
    assert_eq!(error_text(&j), "you were not invited to that channel");
}

#[test]
fn disband_by_non_admin_is_refused() {
    let (mut s, xa, xb) = two_users();
    invite_b(&mut s, xa);
    s.join(xb, JoinRequest { channel: C1 });
    let o = s.disband(xb, DisbandRequest { channel: C1 });
    assert_eq!(error_text(&o), "not in channel/not enough permissions");
    assert!(s.store.contains_channel(C1));
}

#[test]
fn promote_to_admin_swaps_ranks() {
    let (mut s, xa, xb) = two_users();
    invite_b(&mut s, xa);
    s.join(xb, JoinRequest { channel: C1 });
    let o = s.promote(xa, PromoteRequest { channel: C1, name: "Bob Bb".to_string(), world: 22, rank: Rank::Admin });
    assert!(matches!(o.reply, Some(ResponseKind::Promote(_))));
    assert_eq!(s.store.rank_of(C1, A), Some(Rank::Moderator));
    assert_eq!(s.store.rank_of(C1, B), Some(Rank::Admin));
    assert_eq!(o.deliveries.len(), 2);
    match (&o.deliveries[0].message.kind, &o.deliveries[1].message.kind) {
        (ResponseKind::MemberChange(first), ResponseKind::MemberChange(second)) => {
            assert_eq!(first.name, "Alice Aa");
            assert_eq!(first.kind, MemberChangeKind::Promote { rank: Rank::Moderator });
            assert_eq!(second.name, "Bob Bb");
            assert_eq!(second.kind, MemberChangeKind::Promote { rank: Rank::Admin });
        }
        _ => panic!("expected two member changes"),
    }
}

#[test]
fn promote_errors() {
    let (mut s, xa, xb) = two_users();
    let to_invited = s.promote(xa, PromoteRequest { channel: C1, name: "Bob Bb".to_string(), world: 22, rank: Rank::Invited });
    assert_eq!(error_text(&to_invited), "cannot change rank to invited");
    let own = s.promote(xa, PromoteRequest { channel: C1, name: "Alice Aa".to_string(), world: 21, rank: Rank::Member });
    assert_eq!(error_text(&own), "cannot change own rank");
    let outsider = s.promote(xa, PromoteRequest { channel: C1, name: "Bob Bb".to_string(), world: 22, rank: Rank::Moderator });
    assert_eq!(error_text(&outsider), "user not in channel");
    let nobody = s.promote(xa, PromoteRequest { channel: C1, name: "Nobody".to_string(), world: 22, rank: Rank::Moderator });
    assert_eq!(error_text(&nobody), "user not found");
    let not_admin = s.promote(xb, PromoteRequest { channel: C1, name: "Alice Aa".to_string(), world: 21, rank: Rank::Member });
    assert_eq!(error_text(&not_admin), "not in channel/not enough permissions");
}

#[test]
fn kick_member_and_cancel_invite() {
    let (mut s, xa, xb) = two_users();
    invite_b(&mut s, xa);
    let cancel = s.kick(xa, KickRequest { channel: C1, name: "Bob Bb".to_string(), world: 22 });
    match &cancel.deliveries[0].message.kind {
        ResponseKind::MemberChange(m) => assert!(matches!(m.kind, MemberChangeKind::InviteCancel { .. })),
        _ => panic!("expected a member change"),
    }
    assert!(!s.store.is_invited(C1, B));
    invite_b(&mut s, xa);
    s.join(xb, JoinRequest { channel: C1 });
    let kick = s.kick(xa, KickRequest { channel: C1, name: "Bob Bb".to_string(), world: 22 });
    assert!(matches!(kick.reply, Some(ResponseKind::Kick(_))));
    assert_eq!(s.store.rank_of(C1, B), None);
    let again = s.kick(xa, KickRequest { channel: C1, name: "Bob Bb".to_string(), world: 22 });
    assert_eq!(error_text(&again), "user not in channel");
}

#[test]
fn kick_of_offline_user_uses_users_table() {
    let (mut s, xa, xb) = two_users();
    invite_b(&mut s, xa);
    s.join(xb, JoinRequest { channel: C1 });
    s.close_session(xb);
    let kick = s.kick(xa, KickRequest { channel: C1, name: "Bob Bb".to_string(), world: 22 });
    assert!(matches!(kick.reply, Some(ResponseKind::Kick(_))));
    assert_eq!(s.store.rank_of(C1, B), None);
}

#[test]
fn member_cannot_kick() {
    let (mut s, xa, xb) = two_users();
    invite_b(&mut s, xa);
    s.join(xb, JoinRequest { channel: C1 });
    let o = s.kick(xb, KickRequest { channel: C1, name: "Alice Aa".to_string(), world: 21 });
    assert_eq!(error_text(&o), "not in channel/not enough permissions");
}

#[test]
fn invite_refused_when_target_refuses_invites() {
    let mut s = State::new();
    register(&mut s, A, "Alice Aa", World::Ravana);
    register(&mut s, B, "Bob Bb", World::Bismarck);
    let (xa, _) = login(&mut s, A, vec![0xA1], true);
    let (_xb, _) = login(&mut s, B, vec![0xB2], false);
    s.create_with_id(xa, C1, CreateRequest { name: vec![1] });
    let o = invite_b(&mut s, xa);
    assert_eq!(error_text(&o), "user not online");
    assert!(!s.store.is_invited(C1, B));
    let pk = s.public_key(PublicKeyRequest { name: "Bob Bb".to_string(), world: 22 });
    match pk.reply {
        Some(ResponseKind::PublicKey(p)) => assert!(p.pk.is_none()),
        _ => panic!("expected a public key reply"),
    }
}

#[test]
fn invite_errors() {
    let (mut s, xa, xb) = two_users();
    let own = s.invite(xa, InviteRequest { channel: C1, name: "Alice Aa".to_string(), world: 21, encrypted_secret: vec![] });
    assert_eq!(error_text(&own), "cannot invite self");
    invite_b(&mut s, xa);
    assert_eq!(error_text(&invite_b(&mut s, xa)), "already invited");
    s.join(xb, JoinRequest { channel: C1 });
    assert_eq!(error_text(&invite_b(&mut s, xa)), "already in channel");
    let member = s.invite(xb, InviteRequest { channel: C1, name: "Alice Aa".to_string(), world: 21, encrypted_secret: vec![] });
    assert_eq!(error_text(&member), "not enough permissions to invite");
    let outsider = s.invite(xa, InviteRequest { channel: 0xDEAD, name: "Bob Bb".to_string(), world: 22, encrypted_secret: vec![] });
    assert_eq!(error_text(&outsider), "not in channel");
}

#[test]
fn public_key_of_invitable_user() {
    let (mut s, xa, xb) = two_users();
    let o = s.public_key(PublicKeyRequest { name: "Bob Bb".to_string(), world: 22 });
    match o.reply {
        Some(ResponseKind::PublicKey(p)) => assert_eq!(p.pk, Some(vec![0xB2])),
        _ => panic!("expected a public key reply"),
    }
    let allow = s.allow_invites(xb, AllowInvitesRequest { allowed: false });
    assert!(matches!(allow.reply, Some(ResponseKind::AllowInvites(a)) if !a.allowed));
    let o = s.public_key(PublicKeyRequest { name: "Bob Bb".to_string(), world: 22 });
    match o.reply {
        Some(ResponseKind::PublicKey(p)) => assert_eq!(p.pk, None),
        _ => panic!("expected a public key reply"),
    }
    let _ = xa;
}

#[test]
fn update_renames_and_tells_members() {
    let (mut s, xa, _xb) = two_users();
    let o = s.update(xa, UpdateRequest { channel: C1, kind: UpdateKind::Name(vec![9, 9]) });
    assert!(matches!(o.reply, Some(ResponseKind::Update(_))));
    assert_eq!(o.deliveries[0].conns, vec![xa]);
    let ch = extra_chat_server::protocol::Channel::get(&s, C1).unwrap();
    assert_eq!(ch.name, vec![9, 9]);
}

#[test]
fn list_members_includes_invitees() {
    let (mut s, xa, xb) = two_users();
    invite_b(&mut s, xa);
    let o = s.list(xa, ListRequest::Members(C1));
    match o.reply {
        Some(ResponseKind::List(ListResponse::Members { id, members })) => {
            assert_eq!(id, C1);
            assert_eq!(members.len(), 2);
            let bob = members.iter().find(|m| m.name == "Bob Bb").unwrap();
            assert_eq!(bob.rank, Rank::Invited);
            assert_eq!(bob.world, 22);
            assert!(bob.online);
        }
        _ => panic!("expected a member list"),
    }
    let invites = s.list(xb, ListRequest::Invites);
    match invites.reply {
        Some(ResponseKind::List(ListResponse::Invites(list))) => {
            assert_eq!(list.len(), 1);
            assert_eq!(list[0].rank, Rank::Member);
        }
        _ => panic!("expected an invite list"),
    }
}

#[test]
fn list_members_of_foreign_channel_fails() {
    let (s, _xa, xb) = two_users();
    let o = s.list(xb, ListRequest::Members(C1));
    assert_eq!(error_text(&o), "user not in channel");
}

#[test]
fn delete_account_requires_leaving_channels() {
    let (mut s, xa, xb) = two_users();
    let refused = s.delete_account(xa);
    assert_eq!(error_text(&refused), "leave all linkshells first");
    invite_b(&mut s, xa);
    let ok = s.delete_account(xb);
    assert!(matches!(ok.reply, Some(ResponseKind::DeleteAccount(_))));
    assert!(s.store.user(B).is_none());
    assert!(!s.store.is_invited(C1, B));
}

#[test]
fn requests_before_login_are_refused() {
    let mut s = State::new();
    let x = s.open_session().unwrap();
    let step = s.handle_at(x, RequestContainer { number: 4, kind: RequestKind::Join(JoinRequest { channel: C1 }) }, NOW);
    match step {
        Step::Done(o) => assert_eq!(error_text(&o), "not logged in"),
        Step::Register(_) => panic!("expected a refusal"),
    }
    let reg = s.handle_at(
        x,
        RequestContainer {
            number: 5,
            kind: RequestKind::Register(RegisterRequest { name: "Alice Aa".to_string(), world: 21, challenge_completed: false }),
        },
        NOW,
    );
    assert!(matches!(reg, Step::Register(_)));
}

#[test]
fn version_mismatch_closes_session() {
    let s = State::new();
    let bad = s.version(VersionRequest { version: 2 });
    assert_eq!(error_text(&bad), "unsupported version");
    assert!(bad.close);
    let good = s.version(VersionRequest { version: 1 });
    assert!(matches!(good.reply, Some(ResponseKind::Version(v)) if v.version == 1));
    assert!(!good.close);
}

#[test]
fn authenticate_errors() {
    let mut s = State::new();
    register(&mut s, A, "Alice Aa", World::Ravana);
    let x = s.open_session().unwrap();
    let malformed = s.authenticate_at(x, AuthenticateRequest { key: Redacted::new("nonsense".to_string()), pk: vec![], allow_invites: true }, NOW);
    assert!(matches!(&malformed.reply, Some(ResponseKind::Authenticate(a)) if a.error.as_deref() == Some("invalid key")));
    let wrong = s.authenticate_at(x, AuthenticateRequest { key: Redacted::new("extrachat_s1001_wrong".to_string()), pk: vec![], allow_invites: true }, NOW);
    assert!(matches!(&wrong.reply, Some(ResponseKind::Authenticate(a)) if a.error.as_deref() == Some("invalid key")));
    let ok = s.authenticate_at(x, AuthenticateRequest { key: Redacted::new(key_text(A)), pk: vec![], allow_invites: true }, NOW);
    assert!(matches!(&ok.reply, Some(ResponseKind::Authenticate(a)) if a.error.is_none()));
    assert!(ok.refresh.is_none());
    let twice = s.authenticate_at(x, AuthenticateRequest { key: Redacted::new(key_text(A)), pk: vec![], allow_invites: true }, NOW);
    assert!(matches!(&twice.reply, Some(ResponseKind::Authenticate(a)) if a.error.as_deref() == Some("already logged in")));
}

#[test]
fn stale_profile_is_refreshed_on_login() {
    let mut s = State::new();
    register(&mut s, A, "Alice Aa", World::Ravana);
    let x = s.open_session().unwrap();
    let o = s.authenticate_at(x, AuthenticateRequest { key: Redacted::new(key_text(A)), pk: vec![], allow_invites: true }, NOW + 7200);
    assert_eq!(o.refresh, Some(A));
    s.refresh_profile(A, "Alice Renamed".to_string(), World::Omega, NOW + 7300);
    assert_eq!(s.store.user(A).unwrap().name, "Alice Renamed");
    assert_eq!(s.registry.session(x).unwrap().user.as_ref().unwrap().world, World::Omega);
}

#[test]
fn register_challenge_reuse_and_rotation() {
    let mut s = State::new();
    let first = s.register_challenge(A, false, NOW);
    let challenge = match first {
        RegisterStep::Done(o) => match o.reply {
            Some(ResponseKind::Register(RegisterResponse::Challenge { challenge })) => challenge,
            _ => panic!("expected a challenge"),
        },
        RegisterStep::Verify(_) => panic!("expected a challenge"),
    };
    assert_eq!(challenge.len(), 64);
    assert!(challenge.chars().all(|c| c.is_ascii_hexdigit() && !c.is_ascii_uppercase()));
    match s.register_challenge_with(A, false, NOW + 100, "other".to_string()) {
        RegisterStep::Done(o) => assert!(matches!(o.reply, Some(ResponseKind::Register(RegisterResponse::Challenge { challenge: c })) if c == challenge)),
        RegisterStep::Verify(_) => panic!("expected a challenge"),
    }
    match s.register_challenge_with(A, true, NOW + 100, "other".to_string()) {
        RegisterStep::Verify(c) => assert_eq!(c, challenge),
        RegisterStep::Done(_) => panic!("expected a verification step"),
    }
    match s.register_challenge_with(A, false, NOW + 400, "rotated".to_string()) {
        RegisterStep::Done(o) => assert!(matches!(o.reply, Some(ResponseKind::Register(RegisterResponse::Challenge { challenge: c })) if c == "rotated")),
        RegisterStep::Verify(_) => panic!("expected a challenge"),
    }
}

#[test]
fn completed_without_challenge_issues_one() {
    let mut s = State::new();
    match s.register_challenge_with(A, true, NOW, "fresh".to_string()) {
        RegisterStep::Done(o) => assert!(matches!(o.reply, Some(ResponseKind::Register(RegisterResponse::Challenge { challenge: c })) if c == "fresh")),
        RegisterStep::Verify(_) => panic!("expected a challenge"),
    }
}

#[test]
fn register_verify_failure_and_generated_key() {
    let mut s = State::new();
    s.register_challenge_with(A, false, NOW, "abc123".to_string());
    let fail = s.register_verify(A, "Alice Aa".to_string(), World::Ravana, &"abc123".to_string(), &"no code here".to_string(), NOW);
    assert!(matches!(fail.reply, Some(ResponseKind::Register(RegisterResponse::Failure))));
    assert!(s.store.verification(A).is_some());
    let ok = s.register_verify(A, "Alice Aa".to_string(), World::Ravana, &"abc123".to_string(), &"bio: abc123!".to_string(), NOW);
    let key = match ok.reply {
        Some(ResponseKind::Register(RegisterResponse::Success { key })) => key.into_inner(),
        _ => panic!("expected a key"),
    };
    assert!(key.starts_with("extrachat_"));
    assert_eq!(key.split('_').count(), 3);
    assert!(s.store.verification(A).is_none());
    let x = s.open_session().unwrap();
    let o = s.authenticate_at(x, AuthenticateRequest { key: Redacted::new(key), pk: vec![], allow_invites: true }, NOW);
    assert!(matches!(&o.reply, Some(ResponseKind::Authenticate(a)) if a.error.is_none()));
}

#[test]
fn hash_key_is_hex_sha3_of_long_token() {
    let key = ApiKeyParts { prefix: "extrachat".to_string(), short_token: "s".to_string(), long_token: "abc".to_string() };
    assert_eq!(hash_key(&key), "3a985da74fe225b2045c172d6bd390bd855f086e3e9d525b46bfe24511431532");
}

#[test]
fn random_channel_ids_and_announce() {
    let mut s = State::new();
    register(&mut s, A, "Alice Aa", World::Ravana);
    let (xa, _) = login(&mut s, A, vec![], true);
    let o1 = s.create(xa, CreateRequest { name: vec![1] });
    let o2 = s.create(xa, CreateRequest { name: vec![2] });
    let id1 = match o1.reply { Some(ResponseKind::Create(c)) => c.channel.id, _ => panic!("expected a channel") };
    let id2 = match o2.reply { Some(ResponseKind::Create(c)) => c.channel.id, _ => panic!("expected a channel") };
    assert_ne!(id1, id2);
    let anon = s.open_session().unwrap();
    let d = s.announce("maintenance");
    assert_eq!(d.conns, vec![xa]);
    assert!(!d.conns.contains(&anon));
    assert!(matches!(&d.message.kind, ResponseKind::Announce(a) if a.announcement == "maintenance"));
}

#[test]
fn character_search_helpers() {
    let hits = vec![
        CharacterHit { id: 1, name: "Alice Aa".to_string(), world: World::Omega },
        CharacterHit { id: 2, name: "Alice Aa".to_string(), world: World::Ravana },
    ];
    assert_eq!(find_character(&hits, &"Alice Aa".to_string(), World::Ravana), Some(2));
    assert_eq!(find_character(&hits, &"Alice".to_string(), World::Ravana), None);
    assert_eq!(next_page(1, 3), Some(2));
    assert_eq!(next_page(3, 3), None);
    assert_eq!(refresh_wait(100, 102), 3);
    assert_eq!(refresh_wait(100, 110), 0);
    assert_eq!(refresh_wait(100, 90), 5);
}

#[test]
fn register_target_rejects_unknown_world() {
    let bad = State::register_target(&RegisterRequest { name: "x".to_string(), world: 25, challenge_completed: false });
    match bad {
        Err(o) => assert_eq!(error_text(&o), "invalid world id"),
        Ok(_) => panic!("expected a refusal"),
    }
    let good = State::register_target(&RegisterRequest { name: "x".to_string(), world: 403, challenge_completed: false });
    assert!(matches!(good, Ok(World::Raiden)));
    assert_eq!(id_from_world(World::Raiden), 403);
}

#[test]
fn outsiders_get_channel_errors() {
    let (mut s, _xa, xb) = two_users();
    let update = s.update(xb, UpdateRequest { channel: C1, kind: UpdateKind::Name(vec![1]) });
    assert_eq!(error_text(&update), "not in that channel");
    let leave = s.leave(xb, LeaveRequest { channel: C1 });
    assert_eq!(error_text(&leave), "not in that channel");
    let secrets = s.secrets(xb, 1, SecretsRequest { channel: C1 });
    assert_eq!(error_text(&secrets), "not in that channel");
    let join = s.join(xb, JoinRequest { channel: C1 });
    assert_eq!(error_text(&join), "you were not invited to that channel");
}

#[test]
fn secret_answer_from_outsider_is_refused() {
    let mut s = State::new();
    register(&mut s, A, "Alice Aa", World::Ravana);
    register(&mut s, B, "Bob Bb", World::Bismarck);
    register(&mut s, 3003, "Carol Cc", World::Omega);
    let (xa, _) = login(&mut s, A, vec![0xA1], true);
    let (xb, _) = login(&mut s, B, vec![0xB2], true);
    let (xc, _) = login(&mut s, 3003, vec![0xC3], true);
    s.create_with_id(xa, C1, CreateRequest { name: vec![1] });
    invite_b(&mut s, xa);
    let o = s.secrets(xb, 3, SecretsRequest { channel: C1 });
    assert_eq!(o.deliveries[0].conns, vec![xa]);
    let request_id = match &o.deliveries[0].message.kind {
        ResponseKind::SendSecrets(ask) => ask.request_id,
        _ => panic!("expected a secret request"),
    };
    let foreign = s.send_secrets(xc, SendSecretsRequest { request_id, encrypted_shared_secret: Some(vec![1]) });
    assert_eq!(error_text(&foreign), "not in that channel");
    let answer = s.send_secrets(xa, SendSecretsRequest { request_id, encrypted_shared_secret: Some(vec![1]) });
    assert_eq!(answer.deliveries[0].conns, vec![xb]);
}

#[test]
fn fan_out_skips_offline_and_reaches_invitees() {
    let mut s = State::new();
    register(&mut s, A, "Alice Aa", World::Ravana);
    register(&mut s, B, "Bob Bb", World::Bismarck);
    register(&mut s, 3003, "Carol Cc", World::Omega);
    let (xa, _) = login(&mut s, A, vec![0xA1], true);
    let (xb, _) = login(&mut s, B, vec![0xB2], true);
    let (xc, _) = login(&mut s, 3003, vec![0xC3], true);
    s.create_with_id(xa, C1, CreateRequest { name: vec![1] });
    invite_b(&mut s, xa);
    s.invite(xa, InviteRequest { channel: C1, name: "Carol Cc".to_string(), world: 39, encrypted_secret: vec![] });
    s.close_session(xc);
    let d = s.send_to_all(C1, ResponseKind::Disband(extra_chat_server::protocol::DisbandResponse { channel: C1 }));
    let mut conns = d.conns.clone();
    conns.sort();
    let mut want = vec![xa, xb];
    want.sort();
    assert_eq!(conns, want);
    assert_eq!(d.message.number, 0);
}

#[test]
fn closing_a_session_takes_its_user_offline() {
    let (mut s, xa, xb) = two_users();
    assert!(s.registry.contains(B));
    s.close_session(xb);
    assert!(!s.registry.contains(B));
    let pk = s.public_key(PublicKeyRequest { name: "Bob Bb".to_string(), world: 22 });
    match pk.reply {
        Some(ResponseKind::PublicKey(p)) => assert!(p.pk.is_none()),
        _ => panic!("expected a public key reply"),
    }
    let o = invite_b(&mut s, xa);
    assert_eq!(error_text(&o), "user not online");
}

#[test]
fn expired_challenge_is_renewed_even_when_completed() {
    let mut s = State::new();
    s.register_challenge_with(A, false, NOW, "old".to_string());
    match s.register_challenge_with(A, true, NOW + 301, "new".to_string()) {
        RegisterStep::Done(o) => assert!(matches!(o.reply, Some(ResponseKind::Register(RegisterResponse::Challenge { challenge: c })) if c == "new")),
        RegisterStep::Verify(_) => panic!("expected a fresh challenge"),
    }
}

fn error_channel(o: &Outcome) -> Option<u128> {
    match &o.reply {
        Some(ResponseKind::Error(e)) => e.channel,
        _ => panic!("expected an error reply"),
    }
}

#[test]
fn session_errors_carry_no_channel() {
    let mut s = State::new();
    let x = s.open_session().unwrap();
    match s.handle_at(x, RequestContainer { number: 1, kind: RequestKind::Leave(LeaveRequest { channel: C1 }) }, NOW) {
        Step::Done(o) => assert_eq!(error_channel(&o), None),
        Step::Register(_) => panic!("expected a refusal"),
    }
    let v = s.version(VersionRequest { version: 7 });
    assert_eq!(error_channel(&v), None);
    let (mut s, xa, _xb) = two_users();
    let d = s.delete_account(xa);
    assert_eq!(error_channel(&d), None);
}

#[test]
fn deleted_account_cannot_create_or_be_invited() {
    let (mut s, xa, xb) = two_users();
    let deleted = s.delete_account(xb);
    assert!(matches!(deleted.reply, Some(ResponseKind::DeleteAccount(_))));
    let create = s.create_with_id(xb, 0xC2, CreateRequest { name: vec![3] });
    assert_eq!(error_text(&create), "could not create channel");
    assert!(!s.store.contains_channel(0xC2));
    let invite = invite_b(&mut s, xa);
    assert_eq!(error_text(&invite), "user not found");
}

#[test]
fn key_held_by_another_user_is_not_stored() {
    let mut s = State::new();
    register(&mut s, A, "Alice Aa", World::Ravana);
    s.register_challenge_with(B, false, NOW, "code".to_string());
    let key = ApiKeyParts {
        prefix: "extrachat".to_string(),
        short_token: format!("s{}", A),
        long_token: format!("l{}", A),
    };
    let o = s.register_verify_with(B, "Bob Bb".to_string(), World::Bismarck, &"code".to_string(), &"code".to_string(), NOW, key, key_text(A));
    assert_eq!(error_text(&o), "could not store key");
    assert!(s.store.user(B).is_none());
    assert!(s.store.verification(B).is_some());
}

#[test]
fn join_reply_lists_the_joiner() {
    let (mut s, xa, xb) = two_users();
    invite_b(&mut s, xa);
    let o = s.join(xb, JoinRequest { channel: C1 });
    match &o.reply {
        Some(ResponseKind::Join(j)) => {
            assert_eq!(j.channel.name, vec![0xAA, 0xBB]);
            let bob = j.channel.members.iter().find(|m| m.name == "Bob Bb").unwrap();
            assert_eq!(bob.rank, Rank::Member);
            assert_eq!(bob.world, 22);
            assert!(bob.online);
        }
        _ => panic!("expected a join reply"),
    }
}

#[test]
fn router_serves_logged_in_requests() {
    let (mut s, xa, _xb) = two_users();
    match s.handle_at(xa, RequestContainer { number: 2, kind: RequestKind::List(ListRequest::Channels) }, NOW) {
        Step::Done(o) => assert!(matches!(o.reply, Some(ResponseKind::List(ListResponse::Channels(ref l))) if l.len() == 1)),
        Step::Register(_) => panic!("expected a list"),
    }
}
