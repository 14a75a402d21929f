use flamegrower::interactables::Interactable;
use flamegrower::player::{PlayerController, AIM_TIME_SCALE_PERMILLE};
use flamegrower::scene::{false_, true_, TiledColliderShape};

#[test]
fn fire_flower_gives_fire_once() {
    let mut player = PlayerController::new();
    assert!(!player.has_fire());
    let mut flower = Interactable::FireFlower { taken: false };
    flower.on_contact(&mut player);
    assert!(player.has_fire());
    assert_eq!(flower, Interactable::FireFlower { taken: true });
    flower.on_contact(&mut player);
    assert!(player.has_fire());
    assert_eq!(flower, Interactable::FireFlower { taken: true });
}

#[test]
fn taken_flower_gives_nothing() {
    let mut player = PlayerController::new();
    let mut flower = Interactable::FireFlower { taken: true };
    flower.on_contact(&mut player);
    assert!(!player.has_fire());
}

#[test]
fn aiming_slows_time() {
    let mut player = PlayerController::new();
    assert_eq!(player.time_scale(), None);
    player.update_aim(true, false, false);
    assert!(player.is_aim_active());
    assert_eq!(player.time_scale(), Some(AIM_TIME_SCALE_PERMILLE));
    assert_eq!(AIM_TIME_SCALE_PERMILLE, 100);
    player.update_aim(false, false, false);
    assert!(player.is_aim_active());
    player.update_aim(false, false, true);
    assert!(!player.is_aim_active());
    player.update_aim(true, true, false);
    assert!(!player.is_aim_active());
}

#[test]
fn scene_defaults() {
    assert_eq!(TiledColliderShape::default(), TiledColliderShape::Rect);
    assert!(true_());
    assert!(!false_());
}
