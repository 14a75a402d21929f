use flamegrower::chain::{cut_chain, cut_chains, destroy};
use flamegrower::fire::{scaled, Flammable, FlammableParams, FlammableState};
use flamegrower::scene::{flamevine_flammable, weed_flammable};
use flamegrower::store::{FlammableStore, HeatDelta, Overlap};

const DT_60HZ: u64 = 16_667;
const SECOND: u64 = 1_000_000;

fn overlap(source: u64, others: &[Option<u64>]) -> Overlap {
    Overlap {
        source,
        others: others.to_vec(),
    }
}

fn state_of(store: &FlammableStore, e: u64) -> FlammableState {
    store.get(e).expect("entity is flammable").state()
}

fn temperature_of(store: &FlammableStore, e: u64) -> u64 {
    match state_of(store, e) {
        FlammableState::NotOnFire { temperature, .. } => temperature,
        FlammableState::OnFire { .. } => panic!("entity is on fire"),
    }
}

fn forever(burning_heat: u64) -> Flammable {
    Flammable::new(FlammableParams {
        time_to_destroy: None,
        burning_heat,
        ..FlammableParams::default()
    })
    .ignited()
}

#[test]
fn default_params_are_the_game_defaults() {
    let p = FlammableParams::default();
    assert_eq!(p.temp_to_catch_fire, 10_000_000);
    assert_eq!(p.time_to_destroy, Some(66_000));
    assert_eq!(p.burning_heat, 300);
    assert_eq!(p.cooldown_rate, 2);
    let f = Flammable::default();
    assert_eq!(
        f.state(),
        FlammableState::NotOnFire {
            temperature: 0,
            cooling_down: true
        }
    );
    assert!(!f.is_on_fire());
}

#[test]
fn scaled_multiplies_and_saturates() {
    assert_eq!(scaled(300, DT_60HZ), 5_000_100);
    assert_eq!(scaled(0, DT_60HZ), 0);
    assert_eq!(scaled(u64::MAX, 2), u64::MAX);
}

#[test]
fn neighbour_heats_ignites_and_burns_out() {
    let mut store = FlammableStore::new();
    store.insert(1, Flammable::default().ignited());
    store.insert(2, Flammable::default());
    let around = |store: &FlammableStore| -> Vec<Overlap> {
        let mut v = Vec::new();
        if store.contains(1) {
            v.push(overlap(1, &[Some(1), Some(2)]));
        }
        if store.contains(2) {
            v.push(overlap(2, &[Some(2), Some(1)]));
        }
        v
    };

    // first tick: about 5 degrees, not yet burning
    let gone = store.tick(DT_60HZ, &around(&store));
    assert!(gone.is_empty());
    assert_eq!(
        state_of(&store, 2),
        FlammableState::NotOnFire {
            temperature: 5_000_100,
            cooling_down: false
        }
    );

    // second tick: about 10 degrees, ignites
    let gone = store.tick(DT_60HZ, &around(&store));
    assert!(gone.is_empty());
    assert_eq!(state_of(&store, 2), FlammableState::OnFire { time_burning: 0 });

    // A has burned for four ticks by the fourth
    let gone = store.tick(DT_60HZ, &around(&store));
    assert!(gone.is_empty());
    let gone = store.tick(DT_60HZ, &around(&store));
    assert_eq!(gone, vec![1]);
    let mut chains: Vec<Vec<u64>> = Vec::new();
    destroy(&mut store, &mut chains, &gone);
    assert!(!store.contains(1));

    // B burns out in the fourth tick after it ignited, not before
    let gone = store.tick(DT_60HZ, &around(&store));
    assert!(gone.is_empty());
    assert_eq!(
        state_of(&store, 2),
        FlammableState::OnFire {
            time_burning: 3 * DT_60HZ
        }
    );
    let gone = store.tick(DT_60HZ, &around(&store));
    assert_eq!(gone, vec![2]);
}

#[test]
fn burn_out_comes_in_the_ceiling_tick() {
    // 50 ms at 10 ms a tick: the fifth tick exactly
    let mut store = FlammableStore::new();
    store.insert(
        7,
        Flammable::new(FlammableParams {
            time_to_destroy: Some(50_000),
            ..FlammableParams::default()
        })
        .ignited(),
    );
    for _ in 0..4 {
        assert!(store.tick(10_000, &Vec::new()).is_empty());
    }
    assert_eq!(store.tick(10_000, &Vec::new()), vec![7]);

    // 66 ms at 1/60 s a tick: ceil(66000 / 16667) = 4
    let mut store = FlammableStore::new();
    store.insert(8, Flammable::default().ignited());
    for _ in 0..3 {
        assert!(store.tick(DT_60HZ, &Vec::new()).is_empty());
    }
    assert_eq!(store.tick(DT_60HZ, &Vec::new()), vec![8]);
}

#[test]
fn unheated_thing_cools_down() {
    let mut store = FlammableStore::new();
    store.insert(1, forever(5));
    store.insert(3, Flammable::default());
    store.tick(SECOND, &vec![overlap(1, &[Some(3)])]);
    assert_eq!(temperature_of(&store, 3), 5_000_000);

    store.remove(1);
    store.tick(SECOND, &Vec::new());
    assert_eq!(
        state_of(&store, 3),
        FlammableState::NotOnFire {
            temperature: 3_000_000,
            cooling_down: true
        }
    );
    store.tick(SECOND, &Vec::new());
    assert_eq!(temperature_of(&store, 3), 1_000_000);
    store.tick(SECOND, &Vec::new());
    assert_eq!(temperature_of(&store, 3), 0);
    store.tick(SECOND, &Vec::new());
    assert_eq!(temperature_of(&store, 3), 0);
}

#[test]
fn ignite_restarts_burn_timer() {
    let mut store = FlammableStore::new();
    store.insert(4, forever(300));
    for _ in 0..3 {
        store.tick(SECOND, &Vec::new());
    }
    assert_eq!(
        state_of(&store, 4),
        FlammableState::OnFire {
            time_burning: 3 * SECOND
        }
    );
    assert!(store.ignite(4));
    assert_eq!(state_of(&store, 4), FlammableState::OnFire { time_burning: 0 });
    assert!(!store.ignite(5));

    let mut f = forever(1);
    f.ignite();
    assert_eq!(f.state(), FlammableState::OnFire { time_burning: 0 });
}

#[test]
fn ignite_sets_cold_thing_on_fire() {
    let mut store = FlammableStore::new();
    store.insert(9, Flammable::default());
    assert!(store.ignite(9));
    assert_eq!(state_of(&store, 9), FlammableState::OnFire { time_burning: 0 });
    assert_eq!(store.burning_entities(), vec![9]);
}

#[test]
fn burning_thing_does_not_heat_itself() {
    let mut store = FlammableStore::new();
    store.insert(1, forever(300));
    let overlaps = vec![overlap(1, &[Some(1), Some(1), None])];
    store.reset_cooling();
    assert!(store.gather_heat(DT_60HZ, &overlaps).is_empty());
    store.tick(DT_60HZ, &overlaps);
    assert_eq!(
        state_of(&store, 1),
        FlammableState::OnFire {
            time_burning: DT_60HZ
        }
    );
}

#[test]
fn heat_from_two_fires_adds_up_in_either_order() {
    for order in [[1u64, 2u64], [2u64, 1u64]] {
        let mut store = FlammableStore::new();
        store.insert(1, forever(300));
        store.insert(2, forever(100));
        store.insert(3, Flammable::default());
        let overlaps: Vec<Overlap> = order
            .iter()
            .map(|&s| overlap(s, &[Some(s), Some(3)]))
            .collect();
        store.tick(10_000, &overlaps);
        assert_eq!(temperature_of(&store, 3), 4_000_000);
    }
}

#[test]
fn gather_skips_cold_sources_and_shapes_without_entity() {
    let mut store = FlammableStore::new();
    store.insert(1, forever(300));
    store.insert(2, Flammable::default());
    let overlaps = vec![
        overlap(1, &[None, Some(2), Some(9)]),
        overlap(2, &[Some(1)]),
        overlap(5, &[Some(2)]),
    ];
    let deltas = store.gather_heat(10, &overlaps);
    assert_eq!(
        deltas,
        vec![
            HeatDelta {
                entity: 2,
                amount: 3000
            },
            HeatDelta {
                entity: 9,
                amount: 3000
            }
        ]
    );
}

#[test]
fn heat_only_reaches_things_not_on_fire() {
    let mut store = FlammableStore::new();
    store.insert(1, forever(300));
    store.insert(2, Flammable::default());
    store.reset_cooling();
    store.apply_heat(&vec![
        HeatDelta {
            entity: 1,
            amount: 50,
        },
        HeatDelta {
            entity: 2,
            amount: 50,
        },
        HeatDelta {
            entity: 6,
            amount: 50,
        },
        HeatDelta {
            entity: 2,
            amount: 25,
        },
    ]);
    assert_eq!(state_of(&store, 1), FlammableState::OnFire { time_burning: 0 });
    assert_eq!(
        state_of(&store, 2),
        FlammableState::NotOnFire {
            temperature: 75,
            cooling_down: false
        }
    );
    assert_eq!(store.len(), 2);
}

#[test]
fn heated_thing_warms_without_cooling() {
    let mut store = FlammableStore::new();
    store.insert(1, forever(1));
    store.insert(2, Flammable::default());
    store.tick(SECOND, &vec![overlap(1, &[Some(2)])]);
    assert_eq!(temperature_of(&store, 2), 1_000_000);
    store.tick(SECOND, &vec![overlap(1, &[Some(2)])]);
    assert_eq!(temperature_of(&store, 2), 2_000_000);
}

#[test]
fn temperature_saturates() {
    let mut store = FlammableStore::new();
    store.insert(1, forever(u64::MAX));
    store.insert(
        2,
        Flammable::new(FlammableParams {
            temp_to_catch_fire: u64::MAX,
            ..FlammableParams::default()
        }),
    );
    store.tick(SECOND, &vec![overlap(1, &[Some(2), Some(2)])]);
    assert_eq!(state_of(&store, 2), FlammableState::OnFire { time_burning: 0 });
}

#[test]
fn remove_twice_is_harmless() {
    let mut store = FlammableStore::new();
    store.insert(1, Flammable::default());
    store.insert(2, Flammable::default());
    assert!(store.remove(1));
    assert!(!store.remove(1));
    assert_eq!(store.len(), 1);
    assert!(store.contains(2));
    assert!(store.get(1).is_none());
}

#[test]
fn insert_replaces() {
    let mut store = FlammableStore::new();
    store.insert(1, Flammable::default());
    store.insert(1, Flammable::default().ignited());
    assert_eq!(store.len(), 1);
    assert!(store.get(1).unwrap().is_on_fire());
}

#[test]
fn destroy_twice_changes_nothing_more() {
    let mut store = FlammableStore::new();
    for e in 1..=3 {
        store.insert(e, Flammable::default());
    }
    let mut chains = vec![vec![1, 2, 3]];
    destroy(&mut store, &mut chains, &vec![2]);
    assert_eq!(chains, vec![vec![1], vec![3]]);
    assert_eq!(store.len(), 2);
    destroy(&mut store, &mut chains, &vec![2]);
    assert_eq!(chains, vec![vec![1], vec![3]]);
    assert_eq!(store.len(), 2);
}

#[test]
fn cutting_where_entity_is_absent_keeps_chain() {
    assert_eq!(cut_chain(&vec![4, 5, 6], 9), vec![vec![4, 5, 6]]);
    let mut chains = vec![vec![4, 5], vec![6]];
    cut_chains(&mut chains, 9);
    assert_eq!(chains, vec![vec![4, 5], vec![6]]);
}

#[test]
fn chain_falls_apart_at_burnt_segment() {
    let chain: Vec<u64> = vec![10, 11, 12, 13, 14];
    // third of five: two chains of 2 and 2
    assert_eq!(cut_chain(&chain, 12), vec![vec![10, 11], vec![13, 14]]);
    // second of five: 1 and 3
    assert_eq!(cut_chain(&chain, 11), vec![vec![10], vec![12, 13, 14]]);
    // an end: one chain of 4
    assert_eq!(cut_chain(&chain, 10), vec![vec![11, 12, 13, 14]]);
    assert_eq!(cut_chain(&chain, 14), vec![vec![10, 11, 12, 13]]);
    // the only segment: nothing left
    assert!(cut_chain(&vec![10], 10).is_empty());
}

#[test]
fn burning_segment_cuts_its_chain() {
    let mut store = FlammableStore::new();
    for e in 1..=5 {
        store.insert(e, Flammable::default());
    }
    store.ignite(3);
    let mut chains = vec![vec![1, 2, 3, 4, 5], vec![7, 8]];
    let mut gone = Vec::new();
    for _ in 0..4 {
        gone = store.tick(DT_60HZ, &Vec::new());
    }
    assert_eq!(gone, vec![3]);
    destroy(&mut store, &mut chains, &gone);
    assert_eq!(chains, vec![vec![1, 2], vec![4, 5], vec![7, 8]]);
    assert_eq!(store.len(), 4);
}

#[test]
fn recipe_flammables() {
    let weed = weed_flammable();
    assert_eq!(weed.params().time_to_destroy, Some(500_000));
    assert_eq!(weed.params().burning_heat, 300);
    assert!(!weed.is_on_fire());
    let vine = flamevine_flammable();
    assert_eq!(vine.params().time_to_destroy, None);
    assert_eq!(vine.state(), FlammableState::OnFire { time_burning: 0 });
}
