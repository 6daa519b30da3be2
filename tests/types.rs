use extra_chat_server::protocol::{default_true, AnnounceResponse, AuthenticateResponse, ErrorResponse, LeaveResponse};
use extra_chat_server::rank::Rank;
use extra_chat_server::redacted::Redacted;
use extra_chat_server::world::{id_from_world, world_from_id, World};

#[test]
fn rank_numbers_round_trip() {
    for r in [Rank::Invited, Rank::Member, Rank::Moderator, Rank::Admin] {
        assert_eq!(Rank::from_u8(r.as_u8()), r);
    }
    assert_eq!(Rank::Admin.as_u8(), 3);
    assert_eq!(Rank::from_u8(0), Rank::Invited);
    assert_eq!(Rank::from_u8(9), Rank::Member);
    assert!(Rank::Admin.at_least(Rank::Moderator));
    assert!(!Rank::Member.at_least(Rank::Moderator));
}

#[test]
fn world_ids_round_trip() {
    assert_eq!(id_from_world(World::Ravana), 21);
    assert_eq!(id_from_world(World::Sargatanas), 99);
    assert_eq!(world_from_id(22), Some(World::Bismarck));
    assert_eq!(world_from_id(84), None);
    assert_eq!(world_from_id(0), None);
    for id in 0..=500u16 {
        if let Some(w) = world_from_id(id) {
            assert_eq!(id_from_world(w), id);
        }
    }
}

#[test]
fn response_constructors() {
    assert_eq!(AuthenticateResponse::success().error, None);
    assert_eq!(AuthenticateResponse::error("invalid key").error.as_deref(), Some("invalid key"));
    let l = LeaveResponse::error(7, "no");
    assert_eq!(l.channel, 7);
    assert_eq!(l.error.as_deref(), Some("no"));
    assert_eq!(LeaveResponse::success(8).error, None);
    let e = ErrorResponse::new(Some(3), "bad");
    assert_eq!(e.channel, Some(3));
    assert_eq!(e.error, "bad");
    assert_eq!(AnnounceResponse::new("hi").announcement, "hi");
    assert!(default_true());
}

#[test]
fn redacted_holds_its_value() {
    let r = Redacted::new(vec![1u8, 2]);
    assert_eq!(r.as_inner(), &vec![1u8, 2]);
    assert_eq!(r.into_inner(), vec![1u8, 2]);
}

