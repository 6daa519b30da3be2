use vstd::prelude::*;

verus! {

/// A member's standing in a channel, ordered `Invited < Member < Moderator < Admin`.
#[derive(Clone, Copy, Debug, PartialEq, Eq, Structural, Hash)]
pub enum Rank {
    Invited,
    Member,
    Moderator,
    Admin,
}

/// The numeric level of a rank; it also decides the rank order.
pub open spec fn rank_level(r: Rank) -> u8 {
    match r {
        Rank::Invited => 0,
        Rank::Member => 1,
        Rank::Moderator => 2,
        Rank::Admin => 3,
    }
}

/// The rank that a stored number stands for; unknown numbers read as `Member`.
pub open spec fn rank_of_level(u: u8) -> Rank {
    match u {
        0 => Rank::Invited,
        1 => Rank::Member,
        2 => Rank::Moderator,
        3 => Rank::Admin,
        _ => Rank::Member,
    }
}

impl Rank {
    pub fn from_u8(u: u8) -> (r: Rank)
        ensures
            r == rank_of_level(u),
    {
        match u {
            0 => Rank::Invited,
            1 => Rank::Member,
            2 => Rank::Moderator,
            3 => Rank::Admin,
            _ => Rank::Member,
        }
    }

    pub fn as_u8(self) -> (r: u8)
        ensures
            r == rank_level(self),
    {
        match self {
            Rank::Invited => 0,
            Rank::Member => 1,
            Rank::Moderator => 2,
            Rank::Admin => 3,
        }
    }

    /// Whether this rank is at least `other` in the rank order.
    pub fn at_least(self, other: Rank) -> (r: bool)
        ensures
            r == (rank_level(self) >= rank_level(other)),
    {
        self.as_u8() >= other.as_u8()
    }
}

} // verus!
