//! The flammable things of a world, by entity, and the passes of a fire tick.
use vstd::prelude::*;

use crate::fire::{
    Flammable, FlammableState, advance_one, advance_state, burns_out, heat_amount, heat_one,
    heat_state, reset_one, reset_state, saturate, scaled,
};

verus! {

broadcast use {
    crate::fire::Flammable::lemma_with_state,
    crate::fire::Flammable::lemma_same_state,
    crate::fire::Flammable::lemma_restate_twice,
};

/// An entity, as the surrounding world names it.
pub type EntityId = u64;

/// What the spatial query found around one burning entity: the entity
/// behind each overlapping shape, or `None` for a shape that belongs to none.
pub struct Overlap {
    pub source: EntityId,
    pub others: Vec<Option<EntityId>>,
}

/// Heat owed to an entity, recorded while the store is only read.
#[derive(Clone, Copy, Debug, PartialEq, Eq, Structural)]
pub struct HeatDelta {
    pub entity: EntityId,
    pub amount: u64,
}

/// The flammable things of a world, each under a distinct entity.
pub struct FlammableStore {
    entries: Vec<(EntityId, Flammable)>,
}

impl View for FlammableStore {
    type V = Seq<(EntityId, Flammable)>;

    closed spec fn view(&self) -> Seq<(EntityId, Flammable)> {
        self.entries@
    }
}

/// No entity is listed twice.
pub open spec fn distinct_ids(s: Seq<(EntityId, Flammable)>) -> bool {
    forall|i: int, j: int| 0 <= i < j < s.len() ==> s[i].0 != s[j].0
}

pub open spec fn has_entity(s: Seq<(EntityId, Flammable)>, e: EntityId) -> bool {
    exists|i: int| 0 <= i < s.len() && s[i].0 == e
}

/// Where entity `e` stands, when it has an entry.
pub open spec fn index_of(s: Seq<(EntityId, Flammable)>, e: EntityId) -> int {
    choose|i: int| 0 <= i < s.len() && s[i].0 == e
}

/// The flammable thing of entity `e`, if it has one.
pub open spec fn lookup(s: Seq<(EntityId, Flammable)>, e: EntityId) -> Option<Flammable> {
    if has_entity(s, e) {
        Some(s[index_of(s, e)].1)
    } else {
        None
    }
}

/// Each entity with its thing in a new state.
pub open spec fn restate(
    s: Seq<(EntityId, Flammable)>,
    f: spec_fn(EntityId, Flammable) -> FlammableState,
) -> Seq<(EntityId, Flammable)> {
    Seq::new(s.len(), |i: int| (s[i].0, s[i].1.with_state(f(s[i].0, s[i].1))))
}

/// The store after the reset pass.
pub open spec fn reset_all(s: Seq<(EntityId, Flammable)>) -> Seq<(EntityId, Flammable)> {
    restate(s, |e: EntityId, f: Flammable| reset_state(f.spec_state()))
}

/// The heat that one burning entity hands on: `amount` to each overlapping
/// entity other than itself, in the order found.
pub open spec fn spread(source: EntityId, others: Seq<Option<EntityId>>, amount: u64) -> Seq<HeatDelta>
    decreases others.len(),
{
    if others.len() == 0 {
        seq![]
    } else {
        let prev = spread(source, others.drop_last(), amount);
        let o = others.last();
        if o is Some && o->0 != source {
            prev.push(HeatDelta { entity: o->0, amount })
        } else {
            prev
        }
    }
}

/// The heat that one entry of the overlap list hands on: none unless its
/// source is a flammable thing on fire.
pub open spec fn overlap_heat(s: Seq<(EntityId, Flammable)>, o: Overlap, dt: u64) -> Seq<HeatDelta> {
    match lookup(s, o.source) {
        Some(f) => if f.spec_state() is OnFire {
            spread(o.source, o.others@, heat_amount(f.spec_params(), dt))
        } else {
            seq![]
        },
        None => seq![],
    }
}

/// All heat handed on in a tick, overlap by overlap.
pub open spec fn gathered(s: Seq<(EntityId, Flammable)>, overlaps: Seq<Overlap>, dt: u64) -> Seq<HeatDelta>
    decreases overlaps.len(),
{
    if overlaps.len() == 0 {
        seq![]
    } else {
        gathered(s, overlaps.drop_last(), dt) + overlap_heat(s, overlaps.last(), dt)
    }
}

/// Whether any heat is owed to `e`.
pub open spec fn heated(d: Seq<HeatDelta>, e: EntityId) -> bool {
    exists|j: int| 0 <= j < d.len() && d[j].entity == e
}

/// The total heat owed to `e`.
pub open spec fn heat_to(d: Seq<HeatDelta>, e: EntityId) -> int
    decreases d.len(),
{
    if d.len() == 0 {
        0
    } else {
        heat_to(d.drop_last(), e) + if d.last().entity == e {
            d.last().amount as int
        } else {
            0
        }
    }
}

/// The store after the heat `d` is taken in.
pub open spec fn heat_all(s: Seq<(EntityId, Flammable)>, d: Seq<HeatDelta>) -> Seq<(EntityId, Flammable)> {
    restate(
        s,
        |e: EntityId, f: Flammable| heat_state(f.spec_state(), heated(d, e), heat_to(d, e)),
    )
}

/// The store after the transition pass.
pub open spec fn advance_all(s: Seq<(EntityId, Flammable)>, dt: u64) -> Seq<(EntityId, Flammable)> {
    restate(s, |e: EntityId, f: Flammable| advance_state(f.spec_params(), f.spec_state(), dt))
}

/// The entities that the transition pass finds burnt out, in store order.
pub open spec fn burnt_out(s: Seq<(EntityId, Flammable)>, dt: u64) -> Seq<EntityId>
    decreases s.len(),
{
    if s.len() == 0 {
        seq![]
    } else {
        let prev = burnt_out(s.drop_last(), dt);
        let (e, f) = s.last();
        if burns_out(f.spec_params(), f.spec_state(), dt) {
            prev.push(e)
        } else {
            prev
        }
    }
}

/// The store after one whole tick of `dt`, given what the spatial query found.
pub open spec fn ticked(s: Seq<(EntityId, Flammable)>, overlaps: Seq<Overlap>, dt: u64) -> Seq<(EntityId, Flammable)> {
    let r = reset_all(s);
    advance_all(heat_all(r, gathered(r, overlaps, dt)), dt)
}

/// The entities destroyed by one whole tick of `dt`.
pub open spec fn destroyed_by_tick(s: Seq<(EntityId, Flammable)>, overlaps: Seq<Overlap>, dt: u64) -> Seq<EntityId> {
    let r = reset_all(s);
    burnt_out(heat_all(r, gathered(r, overlaps, dt)), dt)
}

/// The store with `f` under entity `e`, in place of what was there or added last.
pub open spec fn inserted(s: Seq<(EntityId, Flammable)>, e: EntityId, f: Flammable) -> Seq<(EntityId, Flammable)> {
    if has_entity(s, e) {
        s.update(index_of(s, e), (e, f))
    } else {
        s.push((e, f))
    }
}

/// The store without entity `e`.
pub open spec fn without(s: Seq<(EntityId, Flammable)>, e: EntityId) -> Seq<(EntityId, Flammable)> {
    if has_entity(s, e) {
        s.remove(index_of(s, e))
    } else {
        s
    }
}

/// The store with entity `e` set on fire, if it has an entry.
pub open spec fn ignited_in(s: Seq<(EntityId, Flammable)>, e: EntityId) -> Seq<(EntityId, Flammable)> {
    if has_entity(s, e) {
        let i = index_of(s, e);
        s.update(i, (e, s[i].1.with_state(FlammableState::OnFire { time_burning: 0 })))
    } else {
        s
    }
}

/// The entities whose things are on fire, in store order.
pub open spec fn burning(s: Seq<(EntityId, Flammable)>) -> Seq<EntityId>
    decreases s.len(),
{
    if s.len() == 0 {
        seq![]
    } else {
        let prev = burning(s.drop_last());
        if s.last().1.spec_state() is OnFire {
            prev.push(s.last().0)
        } else {
            prev
        }
    }
}

pub proof fn lemma_restate_keeps_ids(
    s: Seq<(EntityId, Flammable)>,
    f: spec_fn(EntityId, Flammable) -> FlammableState,
)
    requires
        distinct_ids(s),
    ensures
        distinct_ids(restate(s, f)),
        restate(s, f).len() == s.len(),
        forall|e: EntityId| has_entity(restate(s, f), e) == has_entity(s, e),
{
    let r = restate(s, f);
    assert forall|e: EntityId| has_entity(r, e) == has_entity(s, e) by {
        if has_entity(s, e) {
            let i = choose|i: int| 0 <= i < s.len() && s[i].0 == e;
            assert(r[i].0 == e);
        }
        if has_entity(r, e) {
            let i = choose|i: int| 0 <= i < r.len() && r[i].0 == e;
            assert(s[i].0 == e);
        }
    }
}

proof fn lemma_index_of(s: Seq<(EntityId, Flammable)>, i: int)
    requires
        distinct_ids(s),
        0 <= i < s.len(),
    ensures
        has_entity(s, s[i].0),
        index_of(s, s[i].0) == i,
        lookup(s, s[i].0) == Some(s[i].1),
{
    let e = s[i].0;
    assert(has_entity(s, e));
    let j = index_of(s, e);
    if j < i {
        assert(s[j].0 != s[i].0);
    } else if j > i {
        assert(s[i].0 != s[j].0);
    }
}

proof fn lemma_heat_push(d: Seq<HeatDelta>, x: HeatDelta, e: EntityId)
    ensures
        heat_to(d.push(x), e) == heat_to(d, e) + if x.entity == e {
            x.amount as int
        } else {
            0
        },
        heated(d.push(x), e) == (heated(d, e) || x.entity == e),
{
    assert(d.push(x).drop_last() =~= d);
    if heated(d, e) {
        let j = choose|j: int| 0 <= j < d.len() && d[j].entity == e;
        assert(d.push(x)[j].entity == e);
    }
    if x.entity == e {
        assert(d.push(x)[d.len() as int].entity == e);
    }
    if heated(d.push(x), e) && x.entity != e {
        let j = choose|j: int| 0 <= j < d.push(x).len() && d.push(x)[j].entity == e;
        assert(d[j].entity == e);
    }
}

/// Heat owed is never negative, and is nothing where no heat is owed.
pub proof fn lemma_heat_to_bounds(d: Seq<HeatDelta>, e: EntityId)
    ensures
        heat_to(d, e) >= 0,
        !heated(d, e) ==> heat_to(d, e) == 0,
    decreases d.len(),
{
    if d.len() > 0 {
        lemma_heat_to_bounds(d.drop_last(), e);
        lemma_heat_push(d.drop_last(), d.last(), e);
        assert(d.drop_last().push(d.last()) =~= d);
    }
}

/// Heat owed over two lists in turn is the sum of the two.
pub proof fn lemma_heat_concat(a: Seq<HeatDelta>, b: Seq<HeatDelta>, e: EntityId)
    ensures
        heat_to(a + b, e) == heat_to(a, e) + heat_to(b, e),
        heated(a + b, e) == (heated(a, e) || heated(b, e)),
    decreases b.len(),
{
    if b.len() == 0 {
        assert(a + b =~= a);
        assert(!heated(b, e));
    } else {
        let c = b.drop_last();
        lemma_heat_concat(a, c, e);
        assert(a + b =~= (a + c).push(b.last()));
        assert(c.push(b.last()) =~= b);
        lemma_heat_push(a + c, b.last(), e);
        lemma_heat_push(c, b.last(), e);
    }
}

/// Taking in heat in two portions is taking in their sum.
proof fn lemma_heat_twice(s: FlammableState, h: bool, a: int, x: int)
    requires
        a >= 0,
        x >= 0,
        !h ==> a == 0,
    ensures
        heat_state(heat_state(s, h, a), true, x) == heat_state(s, true, a + x),
{
}

/// An entity is among those found burnt out exactly when its thing burns out.
pub proof fn lemma_burnt_out_members(s: Seq<(EntityId, Flammable)>, dt: u64, e: EntityId)
    ensures
        burnt_out(s, dt).contains(e) <==> exists|i: int|
            0 <= i < s.len() && s[i].0 == e && #[trigger] burns_out(
                s[i].1.spec_params(),
                s[i].1.spec_state(),
                dt,
            ),
    decreases s.len(),
{
    if s.len() > 0 {
        let t = s.drop_last();
        lemma_burnt_out_members(t, dt, e);
        let prev = burnt_out(t, dt);
        if burnt_out(s, dt).contains(e) {
            let j = choose|j: int| 0 <= j < burnt_out(s, dt).len() && burnt_out(s, dt)[j] == e;
            if j < prev.len() {
                assert(prev[j] == e);
                let i = choose|i: int|
                    0 <= i < t.len() && t[i].0 == e && #[trigger] burns_out(
                        t[i].1.spec_params(),
                        t[i].1.spec_state(),
                        dt,
                    );
                assert(s[i] == t[i]);
            } else {
                let i = s.len() - 1;
                assert(s[i] == s.last());
            }
        }
        if exists|i: int|
            0 <= i < s.len() && s[i].0 == e && #[trigger] burns_out(
                s[i].1.spec_params(),
                s[i].1.spec_state(),
                dt,
            ) {
            let i = choose|i: int|
                0 <= i < s.len() && s[i].0 == e && #[trigger] burns_out(
                    s[i].1.spec_params(),
                    s[i].1.spec_state(),
                    dt,
                );
            if i < t.len() {
                assert(t[i] == s[i]);
                let k = choose|k: int| 0 <= k < prev.len() && prev[k] == e;
                if burns_out(s.last().1.spec_params(), s.last().1.spec_state(), dt) {
                    assert(prev.push(s.last().0)[k] == e);
                }
            } else {
                assert(burnt_out(s, dt) == prev.push(e));
                assert(burnt_out(s, dt)[prev.len() as int] == e);
            }
        }
    }
}

/// What a tick does to a burning thing: it burns on for `dt`, whatever heat
/// is about, and its entity is destroyed exactly when it has burned long enough.
pub proof fn lemma_tick_burning(s: Seq<(EntityId, Flammable)>, overlaps: Seq<Overlap>, dt: u64, i: int)
    requires
        distinct_ids(s),
        0 <= i < s.len(),
        s[i].1.spec_state() is OnFire,
    ensures
        ticked(s, overlaps, dt)[i] == (s[i].0, s[i].1.with_state(
            advance_state(s[i].1.spec_params(), s[i].1.spec_state(), dt),
        )),
        destroyed_by_tick(s, overlaps, dt).contains(s[i].0) == burns_out(
            s[i].1.spec_params(),
            s[i].1.spec_state(),
            dt,
        ),
{
    let r = reset_all(s);
    let h = heat_all(r, gathered(r, overlaps, dt));
    assert(h[i] == s[i]);
    lemma_burnt_out_members(h, dt, s[i].0);
    if destroyed_by_tick(s, overlaps, dt).contains(s[i].0) {
        let k = choose|k: int|
            0 <= k < h.len() && h[k].0 == s[i].0 && #[trigger] burns_out(
                h[k].1.spec_params(),
                h[k].1.spec_state(),
                dt,
            );
        if k < i {
            assert(s[k].0 != s[i].0);
        } else if k > i {
            assert(s[i].0 != s[k].0);
        }
    }
}

/// No self-heating: a burning entity hands no heat to itself, though its own
/// shape is always among those that overlap it.
pub proof fn lemma_no_self_heating(s: Seq<(EntityId, Flammable)>, o: Overlap, dt: u64)
    ensures
        forall|j: int| 0 <= j < overlap_heat(s, o, dt).len() ==> #[trigger] overlap_heat(s, o, dt)[j].entity != o.source,
        !heated(overlap_heat(s, o, dt), o.source),
        heat_to(overlap_heat(s, o, dt), o.source) == 0,
{
    if let Some(f) = lookup(s, o.source) {
        lemma_spread_avoids_source(o.source, o.others@, heat_amount(f.spec_params(), dt));
    }
    lemma_heat_to_bounds(overlap_heat(s, o, dt), o.source);
}

proof fn lemma_spread_avoids_source(source: EntityId, others: Seq<Option<EntityId>>, amount: u64)
    ensures
        forall|j: int| 0 <= j < spread(source, others, amount).len() ==> #[trigger] spread(source, others, amount)[j].entity != source,
    decreases others.len(),
{
    if others.len() > 0 {
        let prev = spread(source, others.drop_last(), amount);
        lemma_spread_avoids_source(source, others.drop_last(), amount);
        assert forall|j: int| 0 <= j < spread(source, others, amount).len() implies #[trigger] spread(
            source,
            others,
            amount,
        )[j].entity != source by {
            if j < prev.len() {
                assert(spread(source, others, amount)[j] == prev[j]);
            }
        }
    }
}

/// Heat gathered over two lists of overlaps is the heat of the first
/// followed by that of the second.
pub proof fn lemma_gathered_concat(s: Seq<(EntityId, Flammable)>, a: Seq<Overlap>, b: Seq<Overlap>, dt: u64)
    ensures
        gathered(s, a + b, dt) == gathered(s, a, dt) + gathered(s, b, dt),
    decreases b.len(),
{
    if b.len() == 0 {
        assert(a + b =~= a);
        assert(gathered(s, a, dt) + gathered(s, b, dt) =~= gathered(s, a, dt));
    } else {
        let c = b.drop_last();
        lemma_gathered_concat(s, a, c, dt);
        assert((a + b).drop_last() =~= a + c);
        assert((a + b).last() == b.last());
        assert(gathered(s, a + b, dt) =~= gathered(s, a, dt) + gathered(s, b, dt));
    }
}

/// Additivity: when two burning entities both overlap a thing that is not on
/// fire, it takes in the sum of their heat, in whichever order they were found.
#[verifier::rlimit(40)]
pub proof fn lemma_additivity(s: Seq<(EntityId, Flammable)>, o1: Overlap, o2: Overlap, dt: u64, i: int)
    requires
        distinct_ids(s),
        0 <= i < s.len(),
        s[i].1.spec_state() is NotOnFire,
    ensures
        ({
            let e = s[i].0;
            let total = heat_to(overlap_heat(s, o1, dt), e) + heat_to(overlap_heat(s, o2, dt), e);
            let any = heated(overlap_heat(s, o1, dt), e) || heated(overlap_heat(s, o2, dt), e);
            &&& heat_to(gathered(s, seq![o1, o2], dt), e) == total
            &&& heat_to(gathered(s, seq![o2, o1], dt), e) == total
            &&& heat_all(s, gathered(s, seq![o1, o2], dt))[i] == heat_all(s, gathered(s, seq![o2, o1], dt))[i]
            &&& any ==> heat_all(s, gathered(s, seq![o1, o2], dt))[i].1.spec_state() == (FlammableState::NotOnFire {
                temperature: saturate(s[i].1.spec_state()->temperature + total),
                cooling_down: false,
            })
        }),
{
    let e = s[i].0;
    let a = overlap_heat(s, o1, dt);
    let b = overlap_heat(s, o2, dt);
    let g12 = gathered(s, seq![o1, o2], dt);
    let g21 = gathered(s, seq![o2, o1], dt);
    assert(g12 == a + b) by {
        assert(seq![o1, o2].drop_last() =~= seq![o1]);
        assert(seq![o1].drop_last() =~= Seq::<Overlap>::empty());
        assert(seq![o1].last() == o1);
        assert(gathered(s, Seq::<Overlap>::empty(), dt) =~= Seq::<HeatDelta>::empty());
        assert(gathered(s, seq![o1], dt) == gathered(s, seq![o1].drop_last(), dt) + overlap_heat(s, seq![o1].last(), dt));
        assert(gathered(s, seq![o1], dt) =~= a);
    }
    assert(g21 == b + a) by {
        assert(seq![o2, o1].drop_last() =~= seq![o2]);
        assert(seq![o2].drop_last() =~= Seq::<Overlap>::empty());
        assert(seq![o2].last() == o2);
        assert(gathered(s, Seq::<Overlap>::empty(), dt) =~= Seq::<HeatDelta>::empty());
        assert(gathered(s, seq![o2], dt) == gathered(s, seq![o2].drop_last(), dt) + overlap_heat(s, seq![o2].last(), dt));
        assert(gathered(s, seq![o2], dt) =~= b);
    }
    lemma_heat_concat(a, b, e);
    lemma_heat_concat(b, a, e);
    lemma_heat_to_bounds(a, e);
    lemma_heat_to_bounds(b, e);
    assert(heat_all(s, g12)[i] == heat_all(s, g21)[i]);
}

/// Cooling and ignition exclude each other: over a tick, a thing that is not
/// on fire and takes in no heat only cools (never below zero) and cannot
/// ignite; one that takes in heat only warms, and ignites when hot enough.
pub proof fn lemma_cool_or_ignite(s: Seq<(EntityId, Flammable)>, overlaps: Seq<Overlap>, dt: u64, i: int)
    requires
        distinct_ids(s),
        0 <= i < s.len(),
        s[i].1.spec_state() is NotOnFire,
    ensures
        ({
            let e = s[i].0;
            let p = s[i].1.spec_params();
            let t = s[i].1.spec_state()->temperature;
            let d = gathered(reset_all(s), overlaps, dt);
            let after = ticked(s, overlaps, dt)[i].1.spec_state();
            let warm = saturate(t + heat_to(d, e));
            &&& ticked(s, overlaps, dt)[i].0 == e
            &&& !heated(d, e) ==> after == (FlammableState::NotOnFire {
                temperature: saturate(t - p.cooldown_rate * dt),
                cooling_down: true,
            }) && saturate(t - p.cooldown_rate * dt) <= t
            &&& heated(d, e) ==> warm >= t && if warm >= p.temp_to_catch_fire {
                after == (FlammableState::OnFire { time_burning: 0 })
            } else {
                after == (FlammableState::NotOnFire { temperature: warm, cooling_down: false })
            }
        }),
{
    let e = s[i].0;
    let d = gathered(reset_all(s), overlaps, dt);
    lemma_heat_to_bounds(d, e);
    let p = s[i].1.spec_params();
    assert(p.cooldown_rate * dt >= 0) by (nonlinear_arith);
}

/// Removing an entity a second time changes nothing.
pub proof fn lemma_remove_twice(s: Seq<(EntityId, Flammable)>, e: EntityId)
    requires
        distinct_ids(s),
    ensures
        !has_entity(without(s, e), e),
        without(without(s, e), e) == without(s, e),
        distinct_ids(without(s, e)),
{
    if has_entity(s, e) {
        let k = index_of(s, e);
        let r = s.remove(k);
        assert forall|j: int| 0 <= j < r.len() implies r[j].0 != e by {
            if j < k {
                assert(r[j] == s[j]);
                assert(s[j].0 != s[k].0);
            } else {
                assert(r[j] == s[j + 1]);
                assert(s[k].0 != s[j + 1].0);
            }
        }
        assert forall|a: int, b: int| 0 <= a < b < r.len() implies r[a].0 != r[b].0 by {
            let a2 = if a < k { a } else { a + 1 };
            let b2 = if b < k { b } else { b + 1 };
            assert(r[a] == s[a2]);
            assert(r[b] == s[b2]);
        }
    }
}

impl FlammableStore {
    pub open spec fn wf(&self) -> bool {
        distinct_ids(self@)
    }

    pub fn new() -> (r: Self)
        ensures
            r.wf(),
            r@ == Seq::<(EntityId, Flammable)>::empty(),
    {
        FlammableStore { entries: Vec::new() }
    }

    pub fn len(&self) -> (r: usize)
        ensures
            r == self@.len(),
    {
        self.entries.len()
    }

    /// Where entity `e` stands in the store.
    fn position(&self, e: EntityId) -> (r: Option<usize>)
        requires
            self.wf(),
        ensures
            match r {
                Some(i) => i < self@.len() && self@[i as int].0 == e && has_entity(self@, e)
                    && index_of(self@, e) == i && lookup(self@, e) == Some(self@[i as int].1),
                None => !has_entity(self@, e) && lookup(self@, e) is None,
            },
    {
        let mut i: usize = 0;
        while i < self.entries.len()
            invariant
                i <= self@.len(),
                self.wf(),
                self@ == self.entries@,
                forall|k: int| 0 <= k < i ==> self@[k].0 != e,
            decreases self@.len() - i,
        {
            if self.entries[i].0 == e {
                proof {
                    lemma_index_of(self@, i as int);
                }
                return Some(i);
            }
            i += 1;
        }
        None
    }

    pub fn get(&self, e: EntityId) -> (r: Option<Flammable>)
        requires
            self.wf(),
        ensures
            r == lookup(self@, e),
    {
        match self.position(e) {
            Some(i) => Some(self.entries[i].1),
            None => None,
        }
    }

    pub fn contains(&self, e: EntityId) -> (r: bool)
        requires
            self.wf(),
        ensures
            r == has_entity(self@, e),
    {
        self.position(e).is_some()
    }
    /// Gives entity `e` the flammable thing `f`, replacing the one it had.
    pub fn insert(&mut self, e: EntityId, f: Flammable)
        requires
            old(self).wf(),
        ensures
            final(self).wf(),
            final(self)@ == inserted(old(self)@, e, f),
    {
        match self.position(e) {
            Some(i) => {
                self.entries[i] = (e, f);
            },
            None => {
                self.entries.push((e, f));
            },
        }
    }

    /// Takes entity `e` out of the store. Removing an entity that is not
    /// there changes nothing.
    pub fn remove(&mut self, e: EntityId) -> (r: bool)
        requires
            old(self).wf(),
        ensures
            final(self).wf(),
            r == has_entity(old(self)@, e),
            final(self)@ == without(old(self)@, e),
    {
        match self.position(e) {
            Some(i) => {
                self.entries.remove(i);
                true
            },
            None => false,
        }
    }

    /// Sets entity `e` on fire whatever its state, restarting the burn timer
    /// if it was already burning. Returns whether `e` is flammable.
    pub fn ignite(&mut self, e: EntityId) -> (r: bool)
        requires
            old(self).wf(),
        ensures
            final(self).wf(),
            r == has_entity(old(self)@, e),
            final(self)@ == ignited_in(old(self)@, e),
    {
        match self.position(e) {
            Some(i) => {
                let (id, mut f) = self.entries[i];
                f.ignite();
                self.entries[i] = (id, f);
                true
            },
            None => false,
        }
    }

    /// The entities that are on fire, for which the surroundings are queried.
    pub fn burning_entities(&self) -> (r: Vec<EntityId>)
        ensures
            r@ == burning(self@),
    {
        let mut out: Vec<EntityId> = Vec::new();
        let mut i: usize = 0;
        while i < self.entries.len()
            invariant
                i <= self@.len(),
                self@ == self.entries@,
                out@ == burning(self@.take(i as int)),
            decreases self@.len() - i,
        {
            let (id, f) = self.entries[i];
            proof {
                assert(self@.take(i + 1).drop_last() =~= self@.take(i as int));
            }
            if f.is_on_fire() {
                out.push(id);
            }
            i += 1;
        }
        proof {
            assert(self@.take(i as int) =~= self@);
        }
        out
    }

    /// First pass of a tick: nothing counts as heated until heat arrives.
    pub fn reset_cooling(&mut self)
        requires
            old(self).wf(),
        ensures
            final(self).wf(),
            final(self)@ == reset_all(old(self)@),
    {
        let ghost start = self@;
        let ghost target = reset_all(start);
        let mut i: usize = 0;
        while i < self.entries.len()
            invariant
                i <= self@.len(),
                self@.len() == start.len(),
                target.len() == start.len(),
                target == reset_all(start),
                distinct_ids(start),
                forall|k: int| 0 <= k < i ==> self@[k] == target[k],
                forall|k: int| i <= k < self@.len() ==> self@[k] == start[k],
            decreases self@.len() - i,
        {
            let (id, mut f) = self.entries[i];
            let s = reset_one(f.state());
            f.set_state(s);
            self.entries[i] = (id, f);
            i += 1;
        }
        proof {
            assert(self@ =~= target);
            lemma_restate_keeps_ids(start, |e: EntityId, f: Flammable| reset_state(f.spec_state()));
        }
    }
    /// Second pass of a tick, which only reads: every burning entity owes its
    /// heat over `dt` to each entity that the spatial query found around it,
    /// itself excepted. Whether a receiver is flammable is left to `apply_heat`.
    pub fn gather_heat(&self, dt: u64, overlaps: &Vec<Overlap>) -> (r: Vec<HeatDelta>)
        requires
            self.wf(),
        ensures
            r@ == gathered(self@, overlaps@, dt),
    {
        let mut out: Vec<HeatDelta> = Vec::new();
        let mut k: usize = 0;
        while k < overlaps.len()
            invariant
                k <= overlaps@.len(),
                self.wf(),
                out@ == gathered(self@, overlaps@.take(k as int), dt),
            decreases overlaps@.len() - k,
        {
            let o = &overlaps[k];
            let ghost before = out@;
            proof {
                assert(overlaps@.take(k + 1).drop_last() =~= overlaps@.take(k as int));
                assert(overlaps@.take(k + 1).last() == overlaps@[k as int]);
            }
            match self.get(o.source) {
                Some(f) => {
                    if f.is_on_fire() {
                        let amount = scaled(f.params().burning_heat, dt);
                        let mut j: usize = 0;
                        while j < o.others.len()
                            invariant
                                j <= o.others@.len(),
                                out@ == before + spread(o.source, o.others@.take(j as int), amount),
                            decreases o.others@.len() - j,
                        {
                            proof {
                                assert(o.others@.take(j + 1).drop_last() =~= o.others@.take(j as int));
                            }
                            if let Some(e) = o.others[j] {
                                if e != o.source {
                                    out.push(HeatDelta { entity: e, amount });
                                    proof {
                                        assert(out@ =~= before + spread(o.source, o.others@.take(j + 1), amount));
                                    }
                                }
                            }
                            j += 1;
                        }
                        proof {
                            assert(o.others@.take(j as int) =~= o.others@);
                        }
                    } else {
                        proof {
                            assert(out@ =~= before + overlap_heat(self@, *o, dt));
                        }
                    }
                },
                None => {
                    proof {
                        assert(out@ =~= before + overlap_heat(self@, *o, dt));
                    }
                },
            }
            k += 1;
        }
        proof {
            assert(overlaps@.take(k as int) =~= overlaps@);
        }
        out
    }

    /// Third pass of a tick: each portion of heat goes to its entity if that
    /// entity is flammable and not yet burning, and marks it as heated.
    pub fn apply_heat(&mut self, deltas: &Vec<HeatDelta>)
        requires
            old(self).wf(),
        ensures
            final(self).wf(),
            final(self)@ == heat_all(old(self)@, deltas@),
    {
        let ghost start = self@;
        let mut j: usize = 0;
        proof {
            assert(start =~= heat_all(start, deltas@.take(0)));
        }
        while j < deltas.len()
            invariant
                j <= deltas@.len(),
                distinct_ids(start),
                self.wf(),
                self@ == heat_all(start, deltas@.take(j as int)),
            decreases deltas@.len() - j,
        {
            let d = deltas[j];
            let ghost taken = deltas@.take(j as int);
            proof {
                assert(deltas@.take(j + 1) =~= taken.push(d));
                assert forall|e: EntityId| #![auto]
                    heat_to(taken.push(d), e) == heat_to(taken, e) + if d.entity == e {
                        d.amount as int
                    } else {
                        0
                    } && heated(taken.push(d), e) == (heated(taken, e) || d.entity == e) by {
                    lemma_heat_push(taken, d, e);
                }
            }
            match self.position(d.entity) {
                Some(i) => {
                    let (id, mut f) = self.entries[i];
                    let s = heat_one(f.state(), d.amount);
                    f.set_state(s);
                    self.entries[i] = (id, f);
                    proof {
                        let e = d.entity;
                        lemma_heat_to_bounds(taken, e);
                        lemma_heat_twice(
                            start[i as int].1.spec_state(),
                            heated(taken, e),
                            heat_to(taken, e),
                            d.amount as int,
                        );
                        assert(self@ =~= heat_all(start, deltas@.take(j + 1)));
                        lemma_restate_keeps_ids(
                            start,
                            |e: EntityId, f: Flammable|
                                heat_state(f.spec_state(), heated(deltas@.take(j + 1), e), heat_to(deltas@.take(j + 1), e)),
                        );
                    }
                },
                None => {
                    proof {
                        assert forall|k: int| 0 <= k < start.len() implies start[k].0 != d.entity by {
                            assert(self@[k].0 == start[k].0);
                        }
                        assert(self@ =~= heat_all(start, deltas@.take(j + 1)));
                    }
                },
            }
            j += 1;
        }
        proof {
            assert(deltas@.take(j as int) =~= deltas@);
        }
    }

    /// Last pass of a tick: burning things burn on for `dt`, unheated things
    /// cool down, heated things that are hot enough ignite. Returns the
    /// entities that have now burned long enough, in store order.
    pub fn advance(&mut self, dt: u64) -> (r: Vec<EntityId>)
        requires
            old(self).wf(),
        ensures
            final(self).wf(),
            final(self)@ == advance_all(old(self)@, dt),
            r@ == burnt_out(old(self)@, dt),
    {
        let ghost start = self@;
        let ghost target = advance_all(start, dt);
        let mut out: Vec<EntityId> = Vec::new();
        let mut i: usize = 0;
        while i < self.entries.len()
            invariant
                i <= self@.len(),
                self@.len() == start.len(),
                target == advance_all(start, dt),
                distinct_ids(start),
                forall|k: int| 0 <= k < i ==> self@[k] == target[k],
                forall|k: int| i <= k < self@.len() ==> self@[k] == start[k],
                out@ == burnt_out(start.take(i as int), dt),
            decreases self@.len() - i,
        {
            let (id, mut f) = self.entries[i];
            let (s, done) = advance_one(f.params(), f.state(), dt);
            f.set_state(s);
            self.entries[i] = (id, f);
            proof {
                assert(start.take(i + 1).drop_last() =~= start.take(i as int));
            }
            if done {
                out.push(id);
            }
            i += 1;
        }
        proof {
            assert(self@ =~= target);
            assert(start.take(i as int) =~= start);
            lemma_restate_keeps_ids(
                start,
                |e: EntityId, f: Flammable| advance_state(f.spec_params(), f.spec_state(), dt),
            );
        }
        out
    }

    /// One tick of `dt` microseconds. `overlaps` holds, for burning entities,
    /// what the spatial query found around each. Returns the entities that
    /// burned long enough to be destroyed; they stay in the store until removed.
    pub fn tick(&mut self, dt: u64, overlaps: &Vec<Overlap>) -> (r: Vec<EntityId>)
        requires
            old(self).wf(),
        ensures
            final(self).wf(),
            final(self)@ == ticked(old(self)@, overlaps@, dt),
            r@ == destroyed_by_tick(old(self)@, overlaps@, dt),
    {
        self.reset_cooling();
        let deltas = self.gather_heat(dt, overlaps);
        self.apply_heat(&deltas);
        self.advance(dt)
    }
}

} // verus!
