//! Combustion: which flammable things catch fire, how heat spreads between
//! neighbours, and when burning things are destroyed.
//!
//! Quantities are integers. Time is counted in microseconds, rates in degrees
//! per second and temperatures in millionths of a degree, so a rate applied
//! for `dt` microseconds changes a temperature by exactly `rate * dt` units.
//! Sums that would not fit in a `u64` are held at `u64::MAX`.
use vstd::prelude::*;

verus! {

/// One second, in the time unit used throughout.
pub const MICROS_PER_SECOND: u64 = 1_000_000;

/// One degree, in the temperature unit used throughout.
pub const MICRODEGREES_PER_DEGREE: u64 = 1_000_000;

/// How far out from a burning thing's shape its heat reaches, in
/// thousandths of a world unit. The same for every flammable thing.
pub const FIRE_SPREAD_RANGE_MILLIS: u64 = 200;

/// `x` held to the range of `u64`.
pub open spec fn saturate(x: int) -> u64 {
    if x > u64::MAX as int {
        u64::MAX
    } else if x < 0 {
        0
    } else {
        x as u64
    }
}

/// `rate * dt`, held at `u64::MAX` where it does not fit.
pub fn scaled(rate: u64, dt: u64) -> (r: u64)
    ensures
        r == saturate(rate * dt),
{
    proof {
        assert(rate * dt >= 0) by (nonlinear_arith);
    }
    match rate.checked_mul(dt) {
        Some(p) => p,
        None => u64::MAX,
    }
}

/// Fixed combustion parameters of one flammable thing.
#[derive(Clone, Copy, Debug, PartialEq, Eq)]
pub struct FlammableParams {
    /// Temperature at which a heated thing ignites.
    pub temp_to_catch_fire: u64,
    /// Time the object spends on fire before being destroyed.
    /// Set to None to burn forever.
    pub time_to_destroy: Option<u64>,
    /// Temperature of adjacent flammable things increases by this per second.
    pub burning_heat: u64,
    /// Temperature of this decreases by this per second if nothing is burning nearby.
    pub cooldown_rate: u64,
}

/// The parameters that flammable things get unless told otherwise: ignite
/// at 10 degrees, burn for 66 ms, heat neighbours by 300 degrees per second
/// and cool by 2 degrees per second.
pub open spec fn default_params() -> FlammableParams {
    FlammableParams {
        temp_to_catch_fire: 10_000_000,
        time_to_destroy: Some(66_000),
        burning_heat: 300,
        cooldown_rate: 2,
    }
}

impl Default for FlammableParams {
    fn default() -> (r: Self)
        ensures
            r == default_params(),
    {
        FlammableParams {
            temp_to_catch_fire: 10 * MICRODEGREES_PER_DEGREE,
            time_to_destroy: Some(66_000),
            burning_heat: 300,
            cooldown_rate: 2,
        }
    }
}

/// Where a flammable thing is in its life.
#[derive(Clone, Copy, Debug, PartialEq, Eq, Structural)]
pub enum FlammableState {
    NotOnFire {
        /// Acts as a sort of timer to ignite when adjacent things are on fire.
        temperature: u64,
        /// No heat has reached this during the current tick (yet).
        cooling_down: bool,
    },
    OnFire { time_burning: u64 },
}

/// A cold thing that has not been heated.
pub open spec fn cold_state() -> FlammableState {
    FlammableState::NotOnFire { temperature: 0, cooling_down: true }
}

impl Default for FlammableState {
    fn default() -> (r: Self)
        ensures
            r == cold_state(),
    {
        FlammableState::NotOnFire { temperature: 0, cooling_down: true }
    }
}

/// Component that marks things as able to catch fire.
#[derive(Clone, Copy, Debug, PartialEq, Eq)]
pub struct Flammable {
    params: FlammableParams,
    state: FlammableState,
}

impl Flammable {
    /// The parameters this was made with.
    pub closed spec fn spec_params(self) -> FlammableParams {
        self.params
    }

    /// Where this is in its life.
    pub closed spec fn spec_state(self) -> FlammableState {
        self.state
    }

    /// The same parameters in another state.
    pub closed spec fn with_state(self, s: FlammableState) -> Flammable {
        Flammable { state: s, ..self }
    }

    pub broadcast proof fn lemma_with_state(self, s: FlammableState)
        ensures
            #[trigger] self.with_state(s).spec_state() == s,
            self.with_state(s).spec_params() == self.spec_params(),
    {
    }

    pub broadcast proof fn lemma_same_state(self)
        ensures
            #[trigger] self.with_state(self.spec_state()) == self,
    {
    }

    pub broadcast proof fn lemma_restate_twice(self, a: FlammableState, b: FlammableState)
        ensures
            #[trigger] self.with_state(a).with_state(b) == self.with_state(b),
    {
    }

    pub fn new(params: FlammableParams) -> (r: Self)
        ensures
            r.spec_params() == params,
            r.spec_state() == cold_state(),
    {
        Flammable { params, state: FlammableState::default() }
    }

    /// Sets this on fire, restarting the burn timer if it was already burning.
    pub fn ignite(&mut self)
        ensures
            *final(self) == old(self).with_state(FlammableState::OnFire { time_burning: 0 }),
            final(self).spec_params() == old(self).spec_params(),
            final(self).spec_state() == (FlammableState::OnFire { time_burning: 0 }),
    {
        self.state = FlammableState::OnFire { time_burning: 0 };
    }

    /// This, set on fire.
    pub fn ignited(self) -> (r: Self)
        ensures
            r.spec_params() == self.spec_params(),
            r.spec_state() == (FlammableState::OnFire { time_burning: 0 }),
    {
        let mut f = self;
        f.ignite();
        f
    }

    pub(crate) fn set_state(&mut self, s: FlammableState)
        ensures
            *final(self) == old(self).with_state(s),
    {
        self.state = s;
    }

    pub fn params(&self) -> (r: FlammableParams)
        ensures
            r == self.spec_params(),
    {
        self.params
    }

    pub fn state(&self) -> (r: FlammableState)
        ensures
            r == self.spec_state(),
    {
        self.state
    }

    pub fn is_on_fire(&self) -> (r: bool)
        ensures
            r == self.spec_state() is OnFire,
    {
        match self.state {
            FlammableState::OnFire { .. } => true,
            FlammableState::NotOnFire { .. } => false,
        }
    }
}

impl Default for Flammable {
    fn default() -> (r: Self)
        ensures
            r.spec_params() == default_params(),
            r.spec_state() == cold_state(),
    {
        Flammable::new(FlammableParams::default())
    }
}

//
// one thing over one tick
//

/// At the start of a tick nothing is assumed to be heated.
pub open spec fn reset_state(s: FlammableState) -> FlammableState {
    match s {
        FlammableState::NotOnFire { temperature, .. } => FlammableState::NotOnFire {
            temperature,
            cooling_down: true,
        },
        FlammableState::OnFire { .. } => s,
    }
}

/// Heat `amount` reaching a thing, where `heated` says whether any reached it.
/// Only things that are not yet burning take it in.
pub open spec fn heat_state(s: FlammableState, heated: bool, amount: int) -> FlammableState {
    match s {
        FlammableState::NotOnFire { temperature, .. } => if heated {
            FlammableState::NotOnFire {
                temperature: saturate(temperature + amount),
                cooling_down: false,
            }
        } else {
            s
        },
        FlammableState::OnFire { .. } => s,
    }
}

/// The end of a tick of `dt` microseconds: burning things burn on, unheated
/// things cool down and heated things that are hot enough ignite.
pub open spec fn advance_state(p: FlammableParams, s: FlammableState, dt: u64) -> FlammableState {
    match s {
        FlammableState::OnFire { time_burning } => FlammableState::OnFire {
            time_burning: saturate(time_burning + dt),
        },
        FlammableState::NotOnFire { temperature, cooling_down } => if cooling_down {
            FlammableState::NotOnFire {
                temperature: saturate(temperature - p.cooldown_rate * dt),
                cooling_down,
            }
        } else if temperature >= p.temp_to_catch_fire {
            FlammableState::OnFire { time_burning: 0 }
        } else {
            s
        },
    }
}

/// Whether a thing in state `s` has burned long enough after a further `dt`.
pub open spec fn burns_out(p: FlammableParams, s: FlammableState, dt: u64) -> bool {
    match s {
        FlammableState::OnFire { time_burning } => match p.time_to_destroy {
            Some(t) => saturate(time_burning + dt) >= t,
            None => false,
        },
        FlammableState::NotOnFire { .. } => false,
    }
}

/// The heat that a burning thing with parameters `p` gives each neighbour over `dt`.
pub open spec fn heat_amount(p: FlammableParams, dt: u64) -> u64 {
    saturate(p.burning_heat * dt)
}

/// A thing in state `s` after `k` ticks of `dt` in which no heat reaches it.
pub open spec fn burn_for(p: FlammableParams, s: FlammableState, dt: u64, k: nat) -> FlammableState
    decreases k,
{
    if k == 0 {
        s
    } else {
        advance_state(p, burn_for(p, s, dt, (k - 1) as nat), dt)
    }
}

proof fn lemma_burn_for(p: FlammableParams, dt: u64, k: nat)
    requires
        k * dt <= u64::MAX,
    ensures
        burn_for(p, FlammableState::OnFire { time_burning: 0 }, dt, k) == (FlammableState::OnFire {
            time_burning: (k * dt) as u64,
        }),
    decreases k,
{
    if k > 0 {
        let j = (k - 1) as nat;
        assert(j * dt + dt == k * dt) by (nonlinear_arith)
            requires
                j == k - 1,
        ;
        assert(j * dt <= k * dt) by (nonlinear_arith)
            requires
                j == k - 1,
        ;
        lemma_burn_for(p, dt, j);
    } else {
        assert(k * dt == 0) by (nonlinear_arith)
            requires
                k == 0,
        ;
    }
}

/// Burn-out timing: a thing that has just been set on fire and burns for
/// `t` is found burnt out in tick number `ceil(t / dt)` after it ignited,
/// and in no tick before that one.
pub proof fn lemma_burn_out_timing(p: FlammableParams, dt: u64, t: u64)
    requires
        p.time_to_destroy == Some(t),
        t > 0,
        dt > 0,
        t + dt <= u64::MAX,
    ensures
        ({
            let s0 = FlammableState::OnFire { time_burning: 0 };
            let n = ((t + dt - 1) / dt as int) as nat;
            &&& n >= 1
            &&& n * dt >= t
            &&& (n - 1) * dt < t
            &&& burns_out(p, burn_for(p, s0, dt, (n - 1) as nat), dt)
            &&& forall|j: nat| j + 1 < n ==> !burns_out(p, #[trigger] burn_for(p, s0, dt, j), dt)
        }),
{
    let s0 = FlammableState::OnFire { time_burning: 0 };
    let x: int = t + dt - 1;
    let n = (x / dt as int) as nat;
    let r = x % (dt as int);
    vstd::arithmetic::div_mod::lemma_fundamental_div_mod(x, dt as int);
    vstd::arithmetic::div_mod::lemma_mod_pos_bound(x, dt as int);
    vstd::arithmetic::div_mod::lemma_div_pos_is_pos(x, dt as int);
    assert(n * dt == x - r) by (nonlinear_arith)
        requires
            x == dt * (x / dt as int) + r,
            n == x / dt as int,
    ;
    assert(n >= 1) by (nonlinear_arith)
        requires
            n * dt >= t,
            t > 0,
            n >= 0,
    ;
    assert((n - 1) * dt == n * dt - dt) by (nonlinear_arith);
    let m = (n - 1) as nat;
    lemma_burn_for(p, dt, m);
    assert forall|j: nat| j + 1 < n implies !burns_out(p, #[trigger] burn_for(p, s0, dt, j), dt) by {
        assert(j * dt + dt <= m * dt) by (nonlinear_arith)
            requires
                j + 1 <= m,
        ;
        lemma_burn_for(p, dt, j);
    }
}

/// Computes `reset_state`.
pub(crate) fn reset_one(s: FlammableState) -> (r: FlammableState)
    ensures
        r == reset_state(s),
{
    match s {
        FlammableState::NotOnFire { temperature, .. } => FlammableState::NotOnFire {
            temperature,
            cooling_down: true,
        },
        FlammableState::OnFire { .. } => s,
    }
}

/// Computes `heat_state` for one portion of heat.
pub(crate) fn heat_one(s: FlammableState, amount: u64) -> (r: FlammableState)
    ensures
        r == heat_state(s, true, amount as int),
{
    match s {
        FlammableState::NotOnFire { temperature, .. } => FlammableState::NotOnFire {
            temperature: temperature.saturating_add(amount),
            cooling_down: false,
        },
        FlammableState::OnFire { .. } => s,
    }
}

/// Computes `advance_state` and `burns_out` for one thing.
pub(crate) fn advance_one(p: FlammableParams, s: FlammableState, dt: u64) -> (r: (FlammableState, bool))
    ensures
        r.0 == advance_state(p, s, dt),
        r.1 == burns_out(p, s, dt),
{
    match s {
        FlammableState::OnFire { time_burning } => {
            let t = time_burning.saturating_add(dt);
            let done = match p.time_to_destroy {
                Some(limit) => t >= limit,
                None => false,
            };
            (FlammableState::OnFire { time_burning: t }, done)
        },
        FlammableState::NotOnFire { temperature, cooling_down } => {
            if cooling_down {
                let loss = scaled(p.cooldown_rate, dt);
                (FlammableState::NotOnFire { temperature: temperature.saturating_sub(loss), cooling_down }, false)
            } else if temperature >= p.temp_to_catch_fire {
                (FlammableState::OnFire { time_burning: 0 }, false)
            } else {
                (s, false)
            }
        },
    }
}

} // verus!
