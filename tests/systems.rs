use tower_game::{
    bullet_collision, can_collide, can_move_bullets, isqrt, lifetime_despawn, move_bullets, normalize, spawn_basic_scene,
    tower_shooting, Bullet, BulletPlugin, Health, Lifetime, Projectile, Schedule, Simulation, System, Target, Timer,
    TimerMode, Tower, TowerPlugin, Vector3, BULLET_LIFETIME, BULLET_SPEED, FLIGHT_LIMIT,
};

/// One world unit, in pico-units.
const UNIT: i64 = 1_000_000_000_000;

fn v(x: i64, y: i64, z: i64) -> Vector3 {
    Vector3 { x, y, z }
}

fn projectile(position: Vector3, speed: u32, direction: Vector3, lifetime_us: u64) -> Projectile {
    Projectile {
        position,
        bullet: Bullet { speed, direction },
        lifetime: Lifetime { timer: Timer::new(lifetime_us, TimerMode::Once) },
        parent: 0,
    }
}

fn scene_with_tower() -> Simulation {
    let mut sim = Simulation::new();
    let tower = Tower {
        shooting_timer: Timer::new(1_000_000, TimerMode::Repeating),
        bullet_offset: v(0, 8 * UNIT / 10, 0),
    };
    sim.add_tower(v(0, 0, 0), tower);
    sim
}

#[test]
fn spawned_projectile_aims_at_nearest_target() {
    let mut sim = scene_with_tower();
    let spawn = v(0, 8 * UNIT / 10, 0);
    // farther target first in the table, at distance 5.0 from the spawn point
    sim.add_target(v(0, spawn.y, 5 * UNIT), Target { speed: 100 }, Health { value: 3 });
    // nearer target at distance 3.0
    sim.add_target(v(3 * UNIT, spawn.y, 0), Target { speed: 150 }, Health { value: 3 });
    tower_shooting(&mut sim, 1_000_000);
    assert_eq!(sim.bullets.len(), 1);
    let p = sim.bullets[0];
    assert_eq!(p.position, spawn);
    assert_eq!(p.bullet.direction, v(1000, 0, 0));
    assert_eq!(p.bullet.speed, BULLET_SPEED);
    assert_eq!(p.lifetime.timer, Timer { duration: BULLET_LIFETIME, elapsed: 0, mode: TimerMode::Once });
    assert_eq!(p.parent, 0);
    assert_eq!(sim.towers[0].tower.shooting_timer.elapsed, 0);
}

#[test]
fn tower_waits_for_its_interval() {
    let mut sim = scene_with_tower();
    sim.add_target(v(UNIT, 0, 0), Target { speed: 0 }, Health { value: 3 });
    tower_shooting(&mut sim, 400_000);
    tower_shooting(&mut sim, 500_000);
    assert_eq!(sim.bullets.len(), 0);
    tower_shooting(&mut sim, 100_000);
    assert_eq!(sim.bullets.len(), 1);
    tower_shooting(&mut sim, 999_999);
    assert_eq!(sim.bullets.len(), 1);
    tower_shooting(&mut sim, 1);
    assert_eq!(sim.bullets.len(), 2);
}

#[test]
fn no_target_no_projectile_timer_keeps_schedule() {
    let mut sim = scene_with_tower();
    tower_shooting(&mut sim, 1_250_000);
    assert_eq!(sim.bullets.len(), 0);
    assert_eq!(sim.towers[0].tower.shooting_timer.elapsed, 250_000);
    sim.add_target(v(UNIT, 0, 0), Target { speed: 0 }, Health { value: 3 });
    tower_shooting(&mut sim, 750_000);
    assert_eq!(sim.bullets.len(), 1);
}

#[test]
fn equally_near_targets_pick_the_first() {
    let mut sim = scene_with_tower();
    let y = 8 * UNIT / 10;
    sim.add_target(v(0, y, -2 * UNIT), Target { speed: 0 }, Health { value: 3 });
    sim.add_target(v(0, y, 2 * UNIT), Target { speed: 0 }, Health { value: 3 });
    tower_shooting(&mut sim, 1_000_000);
    assert_eq!(sim.bullets[0].bullet.direction, v(0, 0, -1000));
}

#[test]
fn projectile_moves_speed_times_one_second() {
    let mut sim = Simulation::new();
    sim.bullets.push(projectile(v(0, 0, 0), 2500, v(1000, 0, 0), 10_000_000));
    for _ in 0..100 {
        assert!(can_move_bullets(&sim, 10_000));
        move_bullets(&mut sim, 10_000);
    }
    assert_eq!(sim.bullets[0].position, v(5 * UNIT / 2, 0, 0));
}

#[test]
fn motion_depends_only_on_total_time() {
    let start = v(UNIT, -UNIT, 2 * UNIT);
    let dir = v(3, 4, 0);
    let mut a = Simulation::new();
    a.bullets.push(projectile(start, 2500, dir, 10_000_000));
    let mut b = Simulation::new();
    b.bullets.push(projectile(start, 2500, dir, 10_000_000));
    for dt in [1u64, 333_333, 16_666, 650_000] {
        move_bullets(&mut a, dt);
    }
    move_bullets(&mut b, 1_000_000);
    assert_eq!(a.bullets[0].position, b.bullets[0].position);
    // renormalized direction (600, 800, 0) times 2.5 units/s times 1 s
    assert_eq!(b.bullets[0].position, v(UNIT + 3 * UNIT / 2, -UNIT + 2 * UNIT, 2 * UNIT));
}

#[test]
fn target_hit_twice_keeps_going_down() {
    let mut sim = Simulation::new();
    let at = v(UNIT, 0, UNIT);
    sim.add_target(at, Target { speed: 100 }, Health { value: 3 });
    sim.bullets.push(projectile(at, 2500, v(1000, 0, 0), 1_000_000));
    assert!(can_collide(&sim));
    bullet_collision(&mut sim);
    assert_eq!(sim.bullets.len(), 0);
    sim.bullets.push(projectile(v(UNIT + UNIT / 10, 0, UNIT), 2500, v(1000, 0, 0), 1_000_000));
    bullet_collision(&mut sim);
    assert_eq!(sim.bullets.len(), 0);
    assert_eq!(sim.targets.len(), 1);
    assert_eq!(sim.targets[0].health.value, 1);
}

#[test]
fn health_may_go_negative() {
    let mut sim = Simulation::new();
    sim.add_target(v(0, 0, 0), Target { speed: 0 }, Health { value: 0 });
    sim.bullets.push(projectile(v(0, 0, 0), 2500, v(1000, 0, 0), 1_000_000));
    sim.bullets.push(projectile(v(0, 0, 0), 2500, v(1000, 0, 0), 1_000_000));
    bullet_collision(&mut sim);
    assert_eq!(sim.targets[0].health.value, -2);
    assert_eq!(sim.targets.len(), 1);
}

#[test]
fn one_hit_per_projectile_first_target_in_order() {
    let mut sim = Simulation::new();
    sim.add_target(v(UNIT / 10, 0, 0), Target { speed: 0 }, Health { value: 3 });
    sim.add_target(v(0, 0, 0), Target { speed: 0 }, Health { value: 3 });
    sim.bullets.push(projectile(v(0, 0, 0), 2500, v(1000, 0, 0), 1_000_000));
    bullet_collision(&mut sim);
    assert_eq!(sim.bullets.len(), 0);
    assert_eq!(sim.targets[0].health.value, 2);
    assert_eq!(sim.targets[1].health.value, 3);
}

#[test]
fn hit_radius_is_strict() {
    let mut sim = Simulation::new();
    sim.add_target(v(0, 0, 0), Target { speed: 0 }, Health { value: 3 });
    sim.bullets.push(projectile(v(UNIT / 5, 0, 0), 2500, v(1000, 0, 0), 1_000_000));
    sim.bullets.push(projectile(v(UNIT / 5 - 1, 0, 0), 2500, v(1000, 0, 0), 1_000_000));
    bullet_collision(&mut sim);
    assert_eq!(sim.bullets.len(), 1);
    assert_eq!(sim.bullets[0].position, v(UNIT / 5, 0, 0));
    assert_eq!(sim.targets[0].health.value, 2);
}

#[test]
fn lifetime_destroys_when_due() {
    let mut sim = Simulation::new();
    sim.bullets.push(projectile(v(0, 0, 0), 2500, v(1000, 0, 0), 1_000_000));
    sim.bullets.push(projectile(v(0, 0, 0), 2500, v(1000, 0, 0), 2_000_000));
    lifetime_despawn(&mut sim, 600_000);
    assert_eq!(sim.bullets.len(), 2);
    assert_eq!(sim.bullets[0].lifetime.timer.elapsed, 600_000);
    lifetime_despawn(&mut sim, 400_000);
    assert_eq!(sim.bullets.len(), 1);
    assert_eq!(sim.bullets[0].lifetime.timer.duration, 2_000_000);
    lifetime_despawn(&mut sim, 5_000_000);
    assert_eq!(sim.bullets.len(), 0);
}

#[test]
fn once_timer_fires_once() {
    let mut t = Timer::new(100, TimerMode::Once);
    assert!(!t.tick(99));
    assert!(t.tick(50));
    assert_eq!(t.elapsed, 100);
    assert!(!t.tick(100));
    assert_eq!(t.elapsed, 100);
}

#[test]
fn repeating_timer_rearms() {
    let mut t = Timer::new(100, TimerMode::Repeating);
    assert!(t.tick(250));
    assert_eq!(t.elapsed, 50);
    assert!(!t.tick(49));
    assert!(t.tick(1));
    assert_eq!(t.elapsed, 0);
}

#[test]
fn integer_square_root() {
    assert_eq!(isqrt(0), 0);
    assert_eq!(isqrt(15), 3);
    assert_eq!(isqrt(16), 4);
    assert_eq!(isqrt(u128::MAX), u64::MAX);
}

#[test]
fn normalize_scales_to_unit() {
    assert_eq!(normalize(v(3 * UNIT, 4 * UNIT, 0)), v(600, 800, 0));
    assert_eq!(normalize(v(0, -7, 0)), v(0, -1000, 0));
    assert_eq!(normalize(v(0, 0, 0)), v(0, 0, 0));
}

#[test]
fn normalize_ignores_length() {
    assert_eq!(normalize(v(1, 1, 0)), v(707, 707, 0));
    assert_eq!(normalize(v(1000, 1000, 0)), v(707, 707, 0));
    assert_eq!(normalize(v(-UNIT, 2 * UNIT, 2 * UNIT)), normalize(v(-1, 2, 2)));
    assert_eq!(normalize(v(-1, 2, 2)), v(-333, 666, 666));
}

#[test]
fn motion_ignores_direction_length() {
    let mut a = Simulation::new();
    a.bullets.push(projectile(v(0, 0, 0), 1, v(1, 1, 0), 10_000_000));
    let mut b = Simulation::new();
    b.bullets.push(projectile(v(0, 0, 0), 1, v(1000, 1000, 0), 10_000_000));
    move_bullets(&mut a, 1);
    move_bullets(&mut b, 1);
    assert_eq!(a.bullets[0].position, v(707, 707, 0));
    assert_eq!(b.bullets[0].position, v(707, 707, 0));
}

#[test]
fn motion_check_rejects_leaving_bounds() {
    let mut sim = Simulation::new();
    sim.bullets.push(projectile(v(FLIGHT_LIMIT - 1, 0, 0), 2500, v(1000, 0, 0), 1_000_000));
    assert!(!can_move_bullets(&sim, 1_000_000));
    assert!(can_move_bullets(&sim, 0));
}

#[test]
fn collision_check_guards_health() {
    let mut sim = Simulation::new();
    sim.add_target(v(0, 0, 0), Target { speed: 0 }, Health { value: i64::MIN });
    assert!(can_collide(&sim));
    sim.bullets.push(projectile(v(0, 0, 0), 2500, v(1000, 0, 0), 1_000_000));
    assert!(!can_collide(&sim));
}

#[test]
fn plugins_register_systems_in_tick_order() {
    let tick_order = vec![System::LifetimeDespawn, System::TowerShooting, System::MoveBullets, System::BulletCollision];
    let mut a = Schedule::new();
    BulletPlugin.build(&mut a);
    TowerPlugin.build(&mut a);
    assert_eq!(a.systems(), tick_order);
    let mut b = Schedule::new();
    TowerPlugin.build(&mut b);
    BulletPlugin.build(&mut b);
    assert_eq!(b.systems(), tick_order);
    let mut c = Schedule::new();
    BulletPlugin.build(&mut c);
    assert_eq!(c.systems(), vec![System::LifetimeDespawn, System::MoveBullets, System::BulletCollision]);
    c.add_system(System::MoveBullets);
    assert_eq!(c.systems().len(), 3);
}

#[test]
fn basic_scene_holds_one_tower_and_two_targets() {
    let sim = spawn_basic_scene();
    assert_eq!(sim.towers.len(), 1);
    assert_eq!(sim.towers[0].position, v(0, UNIT / 2, 0));
    assert_eq!(sim.towers[0].tower.bullet_offset, v(0, 8 * UNIT / 10, 0));
    assert_eq!(sim.towers[0].tower.shooting_timer, Timer { duration: 1_000_000, elapsed: 0, mode: TimerMode::Repeating });
    assert_eq!(sim.targets.len(), 2);
    assert_eq!(sim.targets[0].position, v(-2 * UNIT, UNIT / 5, 3 * UNIT / 2));
    assert_eq!(sim.targets[0].target.speed, 150);
    assert_eq!(sim.targets[1].position, v(-5 * UNIT / 2, UNIT / 5, 3 * UNIT / 2));
    assert_eq!(sim.targets[1].target.speed, 100);
    assert_eq!(sim.targets[1].health.value, 3);
    assert_eq!(sim.bullets.len(), 0);
}

#[test]
fn update_spawns_before_motion_and_hits_later() {
    let mut sim = scene_with_tower();
    let y = 8 * UNIT / 10;
    sim.add_target(v(3 * UNIT, y, 0), Target { speed: 0 }, Health { value: 3 });
    assert!(sim.update(1_000_000));
    assert_eq!(sim.bullets.len(), 1);
    assert_eq!(sim.bullets[0].position, v(5 * UNIT / 2, y, 0));
    assert_eq!(sim.targets[0].health.value, 3);
    assert!(sim.update(200_000));
    assert_eq!(sim.bullets.len(), 0);
    assert_eq!(sim.targets[0].health.value, 2);
}

#[test]
fn update_expires_projectiles_before_they_can_hit() {
    let mut sim = Simulation::new();
    sim.add_target(v(0, 0, 0), Target { speed: 0 }, Health { value: 3 });
    sim.bullets.push(projectile(v(0, 0, 0), 0, v(1000, 0, 0), 1_000_000));
    assert!(sim.update(1_000_000));
    assert_eq!(sim.bullets.len(), 0);
    assert_eq!(sim.targets[0].health.value, 3);
}

#[test]
fn update_reports_a_tick_it_cannot_finish() {
    let mut sim = Simulation::new();
    sim.bullets.push(projectile(v(FLIGHT_LIMIT - 1, 0, 0), 2500, v(1000, 0, 0), 10_000_000));
    let mut tower = scene_with_tower();
    sim.towers.push(tower.towers.pop().unwrap());
    sim.add_target(v(UNIT, 0, 0), Target { speed: 0 }, Health { value: 3 });
    assert!(!sim.update(1_000_000));
    assert_eq!(sim.bullets.len(), 1);
    assert_eq!(sim.bullets[0].position, v(FLIGHT_LIMIT - 1, 0, 0));
    assert_eq!(sim.bullets[0].lifetime.timer.elapsed, 0);
    assert_eq!(sim.towers[0].tower.shooting_timer.elapsed, 0);
}
