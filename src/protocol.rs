use vstd::prelude::*;

use crate::rank::Rank;
use crate::redacted::Redacted;

verus! {

/// The protocol version that this server speaks.
pub const VERSION: u32 = 1;

/// A channel as a client sees it: its id, its opaque name and its people.
#[derive(Clone, Debug, PartialEq, Eq)]
pub struct Channel {
    pub id: u128,
    pub name: Vec<u8>,
    pub members: Vec<ChannelMember>,
}

/// One member or invitee of a channel; invitees carry `Rank::Invited`.
#[derive(Clone, Debug, PartialEq, Eq)]
pub struct ChannelMember {
    pub name: String,
    pub world: u16,
    pub rank: Rank,
    pub online: bool,
}

/// A channel without its member list, with the caller's rank in it.
#[derive(Clone, Debug, PartialEq, Eq)]
pub struct SimpleChannel {
    pub id: u128,
    pub name: Vec<u8>,
    pub rank: Rank,
}

#[derive(Clone, Copy, Debug, PartialEq, Eq)]
pub struct PingRequest {}

#[derive(Clone, Copy, Debug, PartialEq, Eq)]
pub struct PingResponse {}

#[derive(Clone, Copy, Debug, PartialEq, Eq)]
pub struct VersionRequest {
    pub version: u32,
}

#[derive(Clone, Copy, Debug, PartialEq, Eq)]
pub struct VersionResponse {
    pub version: u32,
}

#[derive(Clone, Debug, PartialEq, Eq)]
pub struct RegisterRequest {
    pub name: String,
    pub world: u16,
    pub challenge_completed: bool,
}

pub enum RegisterResponse {
    Challenge { challenge: String },
    Failure,
    Success { key: Redacted<String> },
}

pub struct AuthenticateRequest {
    pub key: Redacted<String>,
    pub pk: Vec<u8>,
    pub allow_invites: bool,
}

#[derive(Clone, Debug, PartialEq, Eq)]
pub struct AuthenticateResponse {
    pub error: Option<String>,
}

impl AuthenticateResponse {
    pub fn success() -> (r: Self)
        ensures
            r.error is None,
    {
        AuthenticateResponse { error: None }
    }

    pub fn error(error: &str) -> (r: Self)
        ensures
            r.error matches Some(e) && e@ == error@,
    {
        AuthenticateResponse { error: Some(error.to_owned()) }
    }
}

/// Whether invites are allowed when a client does not say.
pub fn default_true() -> (r: bool)
    ensures
        r,
{
    true
}

#[derive(Clone, Debug, PartialEq, Eq)]
pub struct MessageRequest {
    pub channel: u128,
    pub message: Vec<u8>,
}

#[derive(Clone, Debug, PartialEq, Eq)]
pub struct MessageResponse {
    pub channel: u128,
    pub sender: String,
    pub world: u16,
    pub message: Vec<u8>,
}

#[derive(Clone, Debug, PartialEq, Eq)]
pub struct ErrorResponse {
    pub channel: Option<u128>,
    pub error: String,
}

impl ErrorResponse {
    pub fn new(channel: Option<u128>, error: &str) -> (r: Self)
        ensures
            r.channel == channel,
            r.error@ == error@,
    {
        ErrorResponse { channel, error: error.to_owned() }
    }
}

#[derive(Clone, Debug, PartialEq, Eq)]
pub struct CreateRequest {
    pub name: Vec<u8>,
}

#[derive(Clone, Debug, PartialEq, Eq)]
pub struct CreateResponse {
    pub channel: Channel,
}

#[derive(Clone, Copy, Debug, PartialEq, Eq)]
pub struct DisbandRequest {
    pub channel: u128,
}

#[derive(Clone, Copy, Debug, PartialEq, Eq)]
pub struct DisbandResponse {
    pub channel: u128,
}

#[derive(Clone, Debug, PartialEq, Eq)]
pub struct InviteRequest {
    pub channel: u128,
    pub name: String,
    pub world: u16,
    pub encrypted_secret: Vec<u8>,
}

#[derive(Clone, Debug, PartialEq, Eq)]
pub struct InviteResponse {
    pub channel: u128,
    pub name: String,
    pub world: u16,
}

#[derive(Clone, Debug, PartialEq, Eq)]
pub struct InvitedResponse {
    pub channel: Channel,
    pub name: String,
    pub world: u16,
    pub pk: Vec<u8>,
    pub encrypted_secret: Vec<u8>,
}

#[derive(Clone, Copy, Debug, PartialEq, Eq)]
pub struct JoinRequest {
    pub channel: u128,
}

#[derive(Clone, Debug, PartialEq, Eq)]
pub struct JoinResponse {
    pub channel: Channel,
}

#[derive(Clone, Copy, Debug, PartialEq, Eq)]
pub struct LeaveRequest {
    pub channel: u128,
}

#[derive(Clone, Debug, PartialEq, Eq)]
pub struct LeaveResponse {
    pub channel: u128,
    pub error: Option<String>,
}

impl LeaveResponse {
    pub fn success(channel: u128) -> (r: Self)
        ensures
            r.channel == channel,
            r.error is None,
    {
        LeaveResponse { channel, error: None }
    }

    pub fn error(channel: u128, error: &str) -> (r: Self)
        ensures
            r.channel == channel,
            r.error matches Some(e) && e@ == error@,
    {
        LeaveResponse { channel, error: Some(error.to_owned()) }
    }
}

#[derive(Clone, Debug, PartialEq, Eq)]
pub struct KickRequest {
    pub channel: u128,
    pub name: String,
    pub world: u16,
}

#[derive(Clone, Debug, PartialEq, Eq)]
pub struct KickResponse {
    pub channel: u128,
    pub name: String,
    pub world: u16,
}

#[derive(Clone, Copy, Debug, PartialEq, Eq)]
pub enum ListRequest {
    All,
    Channels,
    Members(u128),
    Invites,
}

#[derive(Clone, Debug, PartialEq, Eq)]
pub enum ListResponse {
    All { channels: Vec<Channel>, invites: Vec<Channel> },
    Channels(Vec<SimpleChannel>),
    Members { id: u128, members: Vec<ChannelMember> },
    Invites(Vec<SimpleChannel>),
}

#[derive(Clone, Debug, PartialEq, Eq)]
pub struct PromoteRequest {
    pub channel: u128,
    pub name: String,
    pub world: u16,
    pub rank: Rank,
}

#[derive(Clone, Debug, PartialEq, Eq)]
pub struct PromoteResponse {
    pub channel: u128,
    pub name: String,
    pub world: u16,
    pub rank: Rank,
}

#[derive(Clone, Debug, PartialEq, Eq)]
pub enum UpdateKind {
    Name(Vec<u8>),
}

#[derive(Clone, Debug, PartialEq, Eq)]
pub struct UpdateRequest {
    pub channel: u128,
    pub kind: UpdateKind,
}

#[derive(Clone, Copy, Debug, PartialEq, Eq)]
pub struct UpdateResponse {
    pub channel: u128,
}

#[derive(Clone, Debug, PartialEq, Eq)]
pub struct UpdatedResponse {
    pub channel: u128,
    pub kind: UpdateKind,
}

#[derive(Clone, Debug, PartialEq, Eq)]
pub struct PublicKeyRequest {
    pub name: String,
    pub world: u16,
}

#[derive(Clone, Debug, PartialEq, Eq)]
pub struct PublicKeyResponse {
    pub name: String,
    pub world: u16,
    pub pk: Option<Vec<u8>>,
}

/// Asked by a member who has lost the shared secret of a channel.
#[derive(Clone, Copy, Debug, PartialEq, Eq)]
pub struct SecretsRequest {
    pub channel: u128,
}

/// The secret, re-encrypted by a peer, handed to the member who asked.
#[derive(Clone, Debug, PartialEq, Eq)]
pub struct SecretsResponse {
    pub channel: u128,
    pub pk: Vec<u8>,
    pub encrypted_shared_secret: Vec<u8>,
}

/// Asks an online peer to encrypt the channel secret for `pk`.
#[derive(Clone, Debug, PartialEq, Eq)]
pub struct SendSecretsResponse {
    pub channel: u128,
    pub request_id: u128,
    pub pk: Vec<u8>,
}

/// A peer's answer to `SendSecretsResponse`; it may not hold the secret.
#[derive(Clone, Debug, PartialEq, Eq)]
pub struct SendSecretsRequest {
    pub request_id: u128,
    pub encrypted_shared_secret: Option<Vec<u8>>,
}

#[derive(Clone, Copy, Debug, PartialEq, Eq)]
pub struct AllowInvitesRequest {
    pub allowed: bool,
}

#[derive(Clone, Copy, Debug, PartialEq, Eq)]
pub struct AllowInvitesResponse {
    pub allowed: bool,
}

#[derive(Clone, Copy, Debug, PartialEq, Eq)]
pub struct DeleteAccountRequest {}

#[derive(Clone, Copy, Debug, PartialEq, Eq)]
pub struct DeleteAccountResponse {}

#[derive(Clone, Debug, PartialEq, Eq)]
pub struct AnnounceResponse {
    pub announcement: String,
}

impl AnnounceResponse {
    pub fn new(announcement: &str) -> (r: Self)
        ensures
            r.announcement@ == announcement@,
    {
        AnnounceResponse { announcement: announcement.to_owned() }
    }
}

#[derive(Clone, Debug, PartialEq, Eq)]
pub struct MemberChangeResponse {
    pub channel: u128,
    pub name: String,
    pub world: u16,
    pub kind: MemberChangeKind,
}

#[derive(Clone, Debug, PartialEq, Eq)]
pub enum MemberChangeKind {
    Invite { inviter: String, inviter_world: u16 },
    InviteDecline,
    InviteCancel { canceler: String, canceler_world: u16 },
    Join,
    Leave,
    Promote { rank: Rank },
    Kick { kicker: String, kicker_world: u16 },
}

pub struct RequestContainer {
    pub number: u32,
    pub kind: RequestKind,
}

pub enum RequestKind {
    Ping(PingRequest),
    Version(VersionRequest),
    Register(RegisterRequest),
    Authenticate(AuthenticateRequest),
    Message(MessageRequest),
    Create(CreateRequest),
    Disband(DisbandRequest),
    Invite(InviteRequest),
    Join(JoinRequest),
    Leave(LeaveRequest),
    Kick(KickRequest),
    List(ListRequest),
    Promote(PromoteRequest),
    Update(UpdateRequest),
    PublicKey(PublicKeyRequest),
    Secrets(SecretsRequest),
    SendSecrets(SendSecretsRequest),
    AllowInvites(AllowInvitesRequest),
    DeleteAccount(DeleteAccountRequest),
}

pub struct ResponseContainer {
    pub number: u32,
    pub kind: ResponseKind,
}

pub enum ResponseKind {
    Ping(PingResponse),
    Version(VersionResponse),
    Register(RegisterResponse),
    Authenticate(AuthenticateResponse),
    Message(MessageResponse),
    Error(ErrorResponse),
    Create(CreateResponse),
    Disband(DisbandResponse),
    Invite(InviteResponse),
    Invited(InvitedResponse),
    Join(JoinResponse),
    Leave(LeaveResponse),
    Kick(KickResponse),
    List(ListResponse),
    Promote(PromoteResponse),
    Update(UpdateResponse),
    Updated(UpdatedResponse),
    PublicKey(PublicKeyResponse),
    MemberChange(MemberChangeResponse),
    Secrets(SecretsResponse),
    SendSecrets(SendSecretsResponse),
    AllowInvites(AllowInvitesResponse),
    DeleteAccount(DeleteAccountResponse),
    Announce(AnnounceResponse),
}

/// Whether a response is the generic error envelope with the given text.
pub open spec fn is_error(r: ResponseKind, text: Seq<char>) -> bool {
    r matches ResponseKind::Error(e) && e.error@ == text
}

} // verus!
