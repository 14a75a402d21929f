//! Level data that is independent of the physics world.
use vstd::prelude::*;

use crate::fire::{Flammable, FlammableParams, FlammableState, cold_state, default_params};

verus! {

/// Non-polygon shapes produced by Tiled.
/// Symmetric shapes are sized based on width.
#[derive(Clone, Copy, Debug, PartialEq, Eq, Structural)]
pub enum TiledColliderShape {
    Circle,
    Rect,
    Capsule,
    Hexagon,
    Triangle,
}

impl Default for TiledColliderShape {
    fn default() -> (r: Self)
        ensures
            r == TiledColliderShape::Rect,
    {
        TiledColliderShape::Rect
    }
}

/// How long a weed burns before it is gone: half a second.
pub const WEED_BURN_TIME_MICROS: u64 = 500_000;

/// What makes a weed flammable: the usual parameters, burning for half a second.
pub fn weed_flammable() -> (r: Flammable)
    ensures
        r.spec_params() == (FlammableParams {
            time_to_destroy: Some(WEED_BURN_TIME_MICROS),
            ..default_params()
        }),
        r.spec_state() == cold_state(),
{
    let mut params = FlammableParams::default();
    params.time_to_destroy = Some(WEED_BURN_TIME_MICROS);
    Flammable::new(params)
}

/// What makes a flamevine an eternal fire: already burning, never burnt out.
pub fn flamevine_flammable() -> (r: Flammable)
    ensures
        r.spec_params() == (FlammableParams { time_to_destroy: None, ..default_params() }),
        r.spec_state() == (FlammableState::OnFire { time_burning: 0 }),
{
    let mut params = FlammableParams::default();
    params.time_to_destroy = None;
    Flammable::new(params).ignited()
}

/// Default for a flag that a level leaves out and that is off unless set.
#[inline]
pub fn false_() -> (r: bool)
    ensures
        !r,
{
    false
}

/// Default for a flag that a level leaves out and that is on unless cleared.
#[inline]
pub fn true_() -> (r: bool)
    ensures
        r,
{
    true
}

} // verus!
