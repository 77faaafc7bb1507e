use tower_sim::components::{
    asset_loading, ColorMilli, GameAssets, NameTag, Rotation, Tower, Vec3Milli, Visual, D_LIFE,
    P_FIRE,
};
use tower_sim::store::{Bundle, Store};
use tower_sim::systems::{spawn_basic_scene, spawn_camera, update};
use tower_sim::timer::{Timer, TimerMode};

fn empty_bundle() -> Bundle {
    Bundle { parent: None, name: None, pose: None, tower: None, lifetime: None, visual: None }
}

fn bullets_alive_by_scan(store: &Store) -> u64 {
    let mut n = 0;
    for i in 0..store.len() {
        if store.entity_at(i).lifetime.is_some() {
            n += 1;
        }
    }
    n
}

fn run(store: &mut Store, assets: &GameAssets, delta: u64, frames: usize) -> u64 {
    let mut peak = 0;
    for _ in 0..frames {
        update(store, assets, delta);
        let alive = bullets_alive_by_scan(store);
        if alive > peak {
            peak = alive;
        }
        // conservation holds at every frame boundary
        assert_eq!(alive, store.spawned_bullets - store.despawned_bullets);
        assert_eq!(alive, store.bullets_alive());
    }
    peak
}

#[test]
fn no_tower_world_never_spawns() {
    let mut store = Store::new();
    spawn_camera(&mut store);
    let assets = asset_loading(Some(1));
    // 600 frames at 1/60 s
    let peak = run(&mut store, &assets, 2, 600);
    assert_eq!(peak, 0);
    assert_eq!(store.spawned_bullets, 0);
    assert_eq!(store.despawned_bullets, 0);
    assert_eq!(store.len(), 1);
}

#[test]
fn single_tower_exact_cadence() {
    let mut store = Store::new();
    spawn_camera(&mut store);
    spawn_basic_scene(&mut store);
    let assets = asset_loading(Some(9));
    // 10.0 s at 1/60 s per frame, one-second cadence
    let peak = run(&mut store, &assets, 2, 600);
    assert_eq!(store.spawned_bullets, 10);
    assert_eq!(peak, 1);
    // the bullet fired at the 10 s mark is still live; the other nine
    // lasted their half second and were despawned
    assert_eq!(store.despawned_bullets, 9);
    assert_eq!(store.bullets_alive(), 1);
}

#[test]
fn single_tower_bullet_lasts_half_a_second() {
    let mut store = Store::new();
    spawn_basic_scene(&mut store);
    let assets = asset_loading(None);
    // the first bullet appears at the end of the 60th 1/60 s frame
    run(&mut store, &assets, 2, 60);
    assert_eq!(store.spawned_bullets, 1);
    assert_eq!(store.bullets_alive(), 1);
    // it lives through 30 more frames (0.5 s) and is then despawned
    run(&mut store, &assets, 2, 29);
    assert_eq!(store.bullets_alive(), 1);
    run(&mut store, &assets, 2, 1);
    assert_eq!(store.bullets_alive(), 0);
    assert_eq!(store.despawned_bullets, 1);
}

#[test]
fn fast_cadence_overlapping_bullets() {
    let mut store = Store::new();
    // a tower firing every 0.25 s; bullets still live 0.5 s
    let mut tower = empty_bundle();
    tower.name = Some(NameTag::Tower);
    tower.tower = Some(Tower { shooting_timer: Timer::new(30, TimerMode::Repeating) });
    store.spawn(tower);
    let assets = asset_loading(Some(3));
    // 2.0 s at 1/120 s per frame
    let peak = run(&mut store, &assets, 1, 240);
    assert_eq!(store.spawned_bullets, 8);
    assert_eq!(peak, 2);
}

#[test]
fn spawn_rate_follows_the_floor_of_elapsed_over_period() {
    let mut store = Store::new();
    spawn_basic_scene(&mut store);
    let assets = asset_loading(None);
    // an odd constant delta: 100 frames of 7 ticks = 700 ticks = 5.833 s,
    // so a one-second cadence fires exactly five times
    run(&mut store, &assets, 7, 100);
    assert_eq!(store.spawned_bullets, 700 / P_FIRE);
    assert_eq!(store.spawned_bullets, 5);
}

#[test]
fn bullet_despawn_on_expiry() {
    let mut store = Store::new();
    spawn_camera(&mut store);
    let mut bullet = empty_bundle();
    bullet.name = Some(NameTag::Bullet);
    bullet.lifetime = Some(tower_sim::components::Lifetime {
        timer: Timer::new(D_LIFE, TimerMode::OneShot),
    });
    let id = store.spawn(bullet);
    let assets = asset_loading(None);
    let before = store.len();
    // 0.4 s: the bullet is still there
    update(&mut store, &assets, 48);
    assert!(store.contains(id));
    assert_eq!(store.len(), before);
    // 0.2 s more: the bullet is gone and nothing else was touched
    update(&mut store, &assets, 24);
    assert!(!store.contains(id));
    assert_eq!(store.len(), before - 1);
    assert_eq!(store.despawned_bullets, 1);
    assert_eq!(store.spawned_bullets, 1);
}

#[test]
fn recursive_despawn_takes_the_children() {
    let mut store = Store::new();
    spawn_camera(&mut store);
    let mut bullet = empty_bundle();
    bullet.name = Some(NameTag::Bullet);
    bullet.lifetime = Some(tower_sim::components::Lifetime {
        timer: Timer::new(D_LIFE, TimerMode::OneShot),
    });
    let id = store.spawn(bullet);
    // the render collaborator hangs two visual helper entities below it
    let mut child = empty_bundle();
    child.parent = Some(id);
    let c1 = store.spawn(child);
    let mut grandchild = empty_bundle();
    grandchild.parent = Some(c1);
    let c2 = store.spawn(grandchild);
    let assets = asset_loading(None);
    // a delta beyond the lifetime expires the bullet on its first tick
    update(&mut store, &assets, 72);
    assert!(!store.contains(id));
    assert!(!store.contains(c1));
    assert!(!store.contains(c2));
    assert_eq!(store.len(), 1);
    // only the bullet itself counted as a despawned bullet
    assert_eq!(store.despawned_bullets, 1);
}

#[test]
fn startup_seeds_camera_ground_light_and_tower() {
    let mut store = Store::new();
    spawn_camera(&mut store);
    spawn_basic_scene(&mut store);
    assert_eq!(store.len(), 4);

    let camera = store.entity_at(0);
    assert_eq!(camera.visual, Some(Visual::Camera));
    let pose = camera.pose.unwrap();
    assert_eq!(pose.translation, Vec3Milli { x: -2000, y: 2500, z: 5000 });
    assert_eq!(pose.rotation, Rotation::LookingAt { target: Vec3Milli { x: 0, y: 0, z: 0 } });

    let ground = store.entity_at(1);
    assert_eq!(
        ground.visual,
        Some(Visual::Plane {
            half_extent_x: 1000,
            half_extent_z: 1000,
            color: ColorMilli { red: 0, green: 0, blue: 1000 },
        })
    );

    let light = store.entity_at(2);
    assert_eq!(
        light.visual,
        Some(Visual::PointLight { intensity: 1500, shadows_enabled: true })
    );
    assert_eq!(light.pose.unwrap().translation, Vec3Milli { x: 4000, y: 8000, z: 4000 });

    let tower = store.entity_at(3);
    assert_eq!(tower.name, Some(NameTag::Tower));
    assert_eq!(tower.name.unwrap().as_str(), "Tower");
    let timer = tower.tower.unwrap().shooting_timer;
    assert_eq!(timer.period(), P_FIRE);
    assert_eq!(timer.mode(), TimerMode::Repeating);
    assert_eq!(timer.elapsed(), 0);
    assert_eq!(tower.pose.unwrap().translation, Vec3Milli { x: 0, y: 500, z: 0 });
    assert_eq!(
        tower.visual,
        Some(Visual::Cuboid {
            size: Vec3Milli { x: 200, y: 1000, z: 200 },
            color: ColorMilli { red: 1000, green: 0, blue: 1000 },
        })
    );
}

#[test]
fn spawned_bullet_carries_the_fixed_bundle() {
    let mut store = Store::new();
    spawn_basic_scene(&mut store);
    let assets = asset_loading(Some(42));
    // one second of 1/60 s frames produces the first bullet
    run(&mut store, &assets, 2, 60);
    let bullet = store.entity_at(store.len() - 1);
    assert_eq!(bullet.name, Some(NameTag::Bullet));
    assert_eq!(bullet.name.unwrap().as_str(), "Bullet");
    assert_eq!(bullet.parent, None);
    assert_eq!(bullet.visual, Some(Visual::Scene { handle: Some(42) }));
    let pose = bullet.pose.unwrap();
    assert_eq!(pose.translation, Vec3Milli { x: 0, y: 700, z: 600 });
    assert_eq!(pose.rotation, Rotation::AboutY { quarter_turns: -1 });
    assert_eq!(pose.scale, Vec3Milli { x: 1000, y: 1000, z: 1000 });
    let lifetime = bullet.lifetime.unwrap().timer;
    assert_eq!(lifetime.period(), D_LIFE);
    assert_eq!(lifetime.mode(), TimerMode::OneShot);
    assert_eq!(lifetime.elapsed(), 0);
}

#[test]
fn unresolved_asset_still_spawns_a_logical_bullet() {
    let mut store = Store::new();
    spawn_basic_scene(&mut store);
    // the asset collaborator failed: the bullet is visually absent but
    // logically present, and the simulation carries on
    let assets = asset_loading(None);
    run(&mut store, &assets, 2, 60);
    assert_eq!(store.spawned_bullets, 1);
    let bullet = store.entity_at(store.len() - 1);
    assert_eq!(bullet.visual, Some(Visual::Scene { handle: None }));
}

#[test]
fn bullet_lifetime_bounds_with_varying_deltas() {
    // deltas between 0.1 s (12 ticks) and 0.2 s (24 ticks) against a 0.5 s
    // lifetime: the bullet must live at least 3 and at most 5 frames
    let mut store = Store::new();
    let mut bullet = empty_bundle();
    bullet.lifetime = Some(tower_sim::components::Lifetime {
        timer: Timer::new(D_LIFE, TimerMode::OneShot),
    });
    let id = store.spawn(bullet);
    let assets = asset_loading(None);
    let deltas = [24_u64, 12, 12, 24, 12];
    let mut frames_alive = 0;
    for delta in deltas {
        if !store.contains(id) {
            break;
        }
        update(&mut store, &assets, delta);
        if store.contains(id) {
            frames_alive += 1;
        }
    }
    // cumulative 24, 36, 48, 72: the fourth frame reaches the period
    assert_eq!(frames_alive, 3);
    assert!(!store.contains(id));
    assert!((3..=5).contains(&frames_alive));
}
