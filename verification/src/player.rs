//! The participants of a game.

use vstd::prelude::*;

verus! {

/// The identity under which a participant is registered: the twelve bytes
/// that the store assigns, read as one number.
#[derive(Debug, Hash, Copy, Clone, PartialEq, Eq, Structural)]
pub struct PlayerId(pub u128);

/// A participant: the identity, once registered, and the name shown to
/// others.
#[derive(Debug, Hash, Clone, PartialEq, Eq)]
pub struct Player {
    pub id: Option<PlayerId>,
    pub name: String,
}

impl Default for Player {
    /// A participant without identity or name.
    fn default() -> (player: Player)
        ensures
            player.id is None,
            player.name@ == Seq::<char>::empty(),
    {
        Player { id: None, name: String::new() }
    }
}

impl Player {
    /// Whether two participants are the same in identity and name.
    pub open spec fn spec_same(&self, other: &Player) -> bool {
        self.id == other.id && self.name@ == other.name@
    }

    /// A participant who is not registered yet.
    pub fn unregistered(name: String) -> (player: Player)
        ensures
            player.id is None,
            player.name == name,
    {
        Player { id: None, name }
    }

    /// Whether two participants have the same identity. Two participants
    /// without an identity count as the same.
    pub fn same_id(&self, other: &Player) -> (equal: bool)
        ensures
            equal == (self.id == other.id),
    {
        match (self.id, other.id) {
            (Some(a), Some(b)) => a.0 == b.0,
            (None, None) => true,
            _ => false,
        }
    }

    /// Whether two participants are the same in identity and name.
    pub fn same(&self, other: &Player) -> (equal: bool)
        ensures
            equal == self.spec_same(other),
    {
        self.same_id(other) && self.name == other.name
    }

    /// A copy of the participant.
    pub fn duplicate(&self) -> (copy: Player)
        ensures
            copy.id == self.id,
            copy.name@ == self.name@,
    {
        Player { id: self.id, name: self.name.clone() }
    }
}

} // verus!
