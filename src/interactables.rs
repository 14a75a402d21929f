//! Pickups and such
use vstd::prelude::*;

use crate::player::PlayerController;

verus! {

#[derive(Clone, Copy, Debug, PartialEq, Eq, Structural)]
pub enum Interactable {
    FireFlower { taken: bool },
}

impl Interactable {
    /// The player touched this. A fire flower gives fire once, and is then taken.
    pub fn on_contact(&mut self, player: &mut PlayerController)
        ensures
            *final(self) == (Interactable::FireFlower { taken: true }),
            final(player).spec_has_fire() == (old(player).spec_has_fire() || !old(self)->taken),
            final(player).spec_aim_active() == old(player).spec_aim_active(),
    {
        match self {
            Interactable::FireFlower { taken } => {
                if !*taken {
                    *taken = true;
                    player.grant_fire();
                }
            },
        }
    }
}

} // verus!
