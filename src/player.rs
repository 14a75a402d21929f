//! The player's own state, apart from its body in the physics world.
use vstd::prelude::*;

verus! {

/// How fast time runs while aiming, in thousandths of normal speed.
pub const AIM_TIME_SCALE_PERMILLE: u64 = 100;

/// Marker component indicating a player spawn point, must be attached to a Pose.
///
/// For now, we just find the first one and spawn the player on it.
/// Eventually these will work as checkpoints.
#[derive(Clone, Copy, Debug)]
pub struct PlayerSpawnPoint;

/// The player's abilities and modes.
#[derive(Clone, Copy, Debug)]
pub struct PlayerController {
    // whether or not slow-down-time-and-show-cool-reticle aiming mode is active
    is_aim_active: bool,
    // whether a fire flower has been picked up
    has_fire: bool,
}

impl PlayerController {
    pub closed spec fn spec_aim_active(self) -> bool {
        self.is_aim_active
    }

    pub closed spec fn spec_has_fire(self) -> bool {
        self.has_fire
    }

    pub fn new() -> (r: Self)
        ensures
            !r.spec_aim_active(),
            !r.spec_has_fire(),
    {
        PlayerController { is_aim_active: false, has_fire: false }
    }

    /// Time runs slower while aiming; `None` means normal speed.
    pub fn time_scale(&self) -> (r: Option<u64>)
        ensures
            r == (if self.spec_aim_active() {
                Some(AIM_TIME_SCALE_PERMILLE)
            } else {
                None
            }),
    {
        if self.is_aim_active {
            Some(AIM_TIME_SCALE_PERMILLE)
        } else {
            None
        }
    }

    /// Aim mode starts once shoot has been held for the aim delay, and ends
    /// when shoot is released or aiming is cancelled (ending wins).
    pub fn update_aim(&mut self, shoot_held_for_delay: bool, cancel_pressed: bool, shoot_released: bool)
        ensures
            final(self).spec_aim_active() == (!(cancel_pressed || shoot_released) && (
            shoot_held_for_delay || old(self).spec_aim_active())),
            final(self).spec_has_fire() == old(self).spec_has_fire(),
    {
        if shoot_held_for_delay {
            self.is_aim_active = true;
        }
        if cancel_pressed || shoot_released {
            self.is_aim_active = false;
        }
    }

    pub fn is_aim_active(&self) -> (r: bool)
        ensures
            r == self.spec_aim_active(),
    {
        self.is_aim_active
    }

    pub fn has_fire(&self) -> (r: bool)
        ensures
            r == self.spec_has_fire(),
    {
        self.has_fire
    }

    /// Gives the player the power of fire.
    pub fn grant_fire(&mut self)
        ensures
            final(self).spec_has_fire(),
            final(self).spec_aim_active() == old(self).spec_aim_active(),
    {
        self.has_fire = true;
    }
}

} // verus!
