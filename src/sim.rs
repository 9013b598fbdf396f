use vstd::prelude::*;
use crate::bullet::{
    bullet_collision, can_collide, can_move_bullets, collision_step, health_fits, lifetime_despawn, lifetime_step,
    motion_fits, motion_step, move_bullets, Bullet, Lifetime,
};
use crate::math::{in_box, Vector3};
use crate::timer::{Timer, TimerMode};
use crate::tower::{tower_shooting, tower_step, Tower};

verus! {

/// Bound on every coordinate of towers, targets, offsets and directions
/// (2^58 pico-units).
pub const COORD_LIMIT: i64 = 0x0400_0000_0000_0000;

/// Bound on every coordinate of a projectile in flight (2^59 pico-units).
pub const FLIGHT_LIMIT: i64 = 0x0800_0000_0000_0000;

/// An enemy; its speed is read by the physics collaborator, not by these rules.
#[derive(Clone, Copy, Debug, PartialEq, Eq, Structural)]
pub struct Target {
    pub speed: u32,
}

/// Hit points of a target; nothing here keeps them from going below zero.
#[derive(Clone, Copy, Debug, PartialEq, Eq, Structural)]
pub struct Health {
    pub value: i64,
}

/// A tower together with its world-space position.
#[derive(Clone, Copy, Debug, PartialEq, Eq, Structural)]
pub struct TowerEntity {
    pub position: Vector3,
    pub tower: Tower,
}

/// A target together with its world-space position and health.
#[derive(Clone, Copy, Debug, PartialEq, Eq, Structural)]
pub struct TargetEntity {
    pub position: Vector3,
    pub target: Target,
    pub health: Health,
}

/// A projectile in flight: world-space position, motion, lifetime and the
/// index of the tower that fired it.
#[derive(Clone, Copy, Debug, PartialEq, Eq, Structural)]
pub struct Projectile {
    pub position: Vector3,
    pub bullet: Bullet,
    pub lifetime: Lifetime,
    pub parent: usize,
}

/// The per-tick systems, as a schedule names them.
#[derive(Clone, Copy, Debug, PartialEq, Eq, Structural)]
pub enum System {
    LifetimeDespawn,
    TowerShooting,
    MoveBullets,
    BulletCollision,
}

/// The systems registered for a tick.  Whatever order they are registered
/// in, they run in the fixed tick order: lifetimes, towers, motion, hits.
#[derive(Clone, Copy, Debug, PartialEq, Eq, Structural)]
pub struct Schedule {
    pub lifetime_despawn: bool,
    pub tower_shooting: bool,
    pub move_bullets: bool,
    pub bullet_collision: bool,
}

impl Schedule {
    /// The registered systems in the order they run.
    pub open spec fn order(self) -> Seq<System> {
        (if self.lifetime_despawn { seq![System::LifetimeDespawn] } else { seq![] })
            + (if self.tower_shooting { seq![System::TowerShooting] } else { seq![] })
            + (if self.move_bullets { seq![System::MoveBullets] } else { seq![] })
            + (if self.bullet_collision { seq![System::BulletCollision] } else { seq![] })
    }

    /// A schedule with no system.
    pub fn new() -> (r: Schedule)
        ensures
            r == (Schedule {
                lifetime_despawn: false,
                tower_shooting: false,
                move_bullets: false,
                bullet_collision: false,
            }),
    {
        Schedule { lifetime_despawn: false, tower_shooting: false, move_bullets: false, bullet_collision: false }
    }

    /// Registers one system; registering it again changes nothing.
    pub fn add_system(&mut self, system: System)
        ensures
            *final(self) == match system {
                System::LifetimeDespawn => Schedule { lifetime_despawn: true, ..*old(self) },
                System::TowerShooting => Schedule { tower_shooting: true, ..*old(self) },
                System::MoveBullets => Schedule { move_bullets: true, ..*old(self) },
                System::BulletCollision => Schedule { bullet_collision: true, ..*old(self) },
            },
    {
        match system {
            System::LifetimeDespawn => self.lifetime_despawn = true,
            System::TowerShooting => self.tower_shooting = true,
            System::MoveBullets => self.move_bullets = true,
            System::BulletCollision => self.bullet_collision = true,
        }
    }

    /// The registered systems in the order they run.
    pub fn systems(&self) -> (r: Vec<System>)
        ensures
            r@ == self.order(),
    {
        let mut r: Vec<System> = Vec::new();
        if self.lifetime_despawn {
            r.push(System::LifetimeDespawn);
        }
        if self.tower_shooting {
            r.push(System::TowerShooting);
        }
        if self.move_bullets {
            r.push(System::MoveBullets);
        }
        if self.bullet_collision {
            r.push(System::BulletCollision);
        }
        assert(r@ =~= self.order());
        r
    }
}

/// With every system registered, a tick runs lifetimes first, then towers,
/// then motion, then hits.
pub proof fn lemma_full_schedule_order(s: Schedule)
    requires
        s.lifetime_despawn,
        s.tower_shooting,
        s.move_bullets,
        s.bullet_collision,
    ensures
        s.order() == seq![System::LifetimeDespawn, System::TowerShooting, System::MoveBullets, System::BulletCollision],
{
    assert(s.order() =~= seq![System::LifetimeDespawn, System::TowerShooting, System::MoveBullets, System::BulletCollision]);
}

/// The entity store: one table per kind of entity.
pub struct Simulation {
    pub towers: Vec<TowerEntity>,
    pub targets: Vec<TargetEntity>,
    pub bullets: Vec<Projectile>,
}

impl TowerEntity {
    pub open spec fn wf(self) -> bool {
        &&& in_box(self.position@, COORD_LIMIT as int)
        &&& in_box(self.tower.bullet_offset@, COORD_LIMIT as int)
        &&& self.tower.shooting_timer.wf()
    }
}

impl TargetEntity {
    pub open spec fn wf(self) -> bool {
        in_box(self.position@, COORD_LIMIT as int)
    }
}

impl Projectile {
    pub open spec fn wf(self) -> bool {
        &&& in_box(self.position@, FLIGHT_LIMIT as int)
        &&& in_box(self.bullet.direction@, COORD_LIMIT as int)
        &&& self.lifetime.timer.wf()
    }
}

impl Simulation {
    pub open spec fn wf(&self) -> bool {
        &&& forall|i: int| 0 <= i < self.towers@.len() ==> #[trigger] self.towers@[i].wf()
        &&& forall|i: int| 0 <= i < self.targets@.len() ==> #[trigger] self.targets@[i].wf()
        &&& forall|i: int| 0 <= i < self.bullets@.len() ==> #[trigger] self.bullets@[i].wf()
    }

    /// An empty scene.
    pub fn new() -> (r: Simulation)
        ensures
            r.wf(),
            r.towers@.len() == 0,
            r.targets@.len() == 0,
            r.bullets@.len() == 0,
    {
        Simulation { towers: Vec::new(), targets: Vec::new(), bullets: Vec::new() }
    }
}

impl Simulation {
    /// Adds a tower; returns its index.
    pub fn add_tower(&mut self, position: Vector3, tower: Tower) -> (r: usize)
        requires
            old(self).wf(),
            (TowerEntity { position, tower }).wf(),
        ensures
            final(self).wf(),
            r == old(self).towers@.len(),
            final(self).towers@ == old(self).towers@.push(TowerEntity { position, tower }),
            final(self).targets@ == old(self).targets@,
            final(self).bullets@ == old(self).bullets@,
    {
        let r = self.towers.len();
        self.towers.push(TowerEntity { position, tower });
        r
    }

    /// Adds a target; returns its index.
    pub fn add_target(&mut self, position: Vector3, target: Target, health: Health) -> (r: usize)
        requires
            old(self).wf(),
            in_box(position@, COORD_LIMIT as int),
        ensures
            final(self).wf(),
            r == old(self).targets@.len(),
            final(self).targets@ == old(self).targets@.push(TargetEntity { position, target, health }),
            final(self).towers@ == old(self).towers@,
            final(self).bullets@ == old(self).bullets@,
    {
        let r = self.targets.len();
        self.targets.push(TargetEntity { position, target, health });
        r
    }

    /// Moves target `j` to where the physics collaborator has put it.
    pub fn set_target_position(&mut self, j: usize, position: Vector3)
        requires
            old(self).wf(),
            j < old(self).targets@.len(),
            in_box(position@, COORD_LIMIT as int),
        ensures
            final(self).wf(),
            final(self).targets@ == old(self).targets@.update(
                j as int,
                TargetEntity { position, ..old(self).targets@[j as int] },
            ),
            final(self).towers@ == old(self).towers@,
            final(self).bullets@ == old(self).bullets@,
    {
        let mut t = self.targets[j];
        t.position = position;
        self.targets.set(j, t);
    }
}

/// The starting scene: one tower half a unit above the origin that fires
/// every second from 0.8 units above itself, and two targets of 3 health.
pub fn spawn_basic_scene() -> (r: Simulation)
    ensures
        r.wf(),
        r.towers@ == seq![
            TowerEntity {
                position: Vector3 { x: 0, y: 500_000_000_000, z: 0 },
                tower: Tower {
                    shooting_timer: Timer { duration: 1_000_000, elapsed: 0, mode: TimerMode::Repeating },
                    bullet_offset: Vector3 { x: 0, y: 800_000_000_000, z: 0 },
                },
            },
        ],
        r.targets@ == seq![
            TargetEntity {
                position: Vector3 { x: -2_000_000_000_000i64, y: 200_000_000_000, z: 1_500_000_000_000 },
                target: Target { speed: 150 },
                health: Health { value: 3 },
            },
            TargetEntity {
                position: Vector3 { x: -2_500_000_000_000i64, y: 200_000_000_000, z: 1_500_000_000_000 },
                target: Target { speed: 100 },
                health: Health { value: 3 },
            },
        ],
        r.bullets@.len() == 0,
{
    let mut sim = Simulation::new();
    let tower = Tower {
        shooting_timer: Timer::new(1_000_000, TimerMode::Repeating),
        bullet_offset: Vector3 { x: 0, y: 800_000_000_000, z: 0 },
    };
    sim.add_tower(Vector3 { x: 0, y: 500_000_000_000, z: 0 }, tower);
    sim.add_target(
        Vector3 { x: -2_000_000_000_000i64, y: 200_000_000_000, z: 1_500_000_000_000 },
        Target { speed: 150 },
        Health { value: 3 },
    );
    sim.add_target(
        Vector3 { x: -2_500_000_000_000i64, y: 200_000_000_000, z: 1_500_000_000_000 },
        Target { speed: 100 },
        Health { value: 3 },
    );
    assert(sim.towers@ =~= seq![
        TowerEntity {
            position: Vector3 { x: 0, y: 500_000_000_000, z: 0 },
            tower: Tower {
                shooting_timer: Timer { duration: 1_000_000, elapsed: 0, mode: TimerMode::Repeating },
                bullet_offset: Vector3 { x: 0, y: 800_000_000_000, z: 0 },
            },
        },
    ]);
    assert(sim.targets@ =~= seq![
        TargetEntity {
            position: Vector3 { x: -2_000_000_000_000i64, y: 200_000_000_000, z: 1_500_000_000_000 },
            target: Target { speed: 150 },
            health: Health { value: 3 },
        },
        TargetEntity {
            position: Vector3 { x: -2_500_000_000_000i64, y: 200_000_000_000, z: 1_500_000_000_000 },
            target: Target { speed: 100 },
            health: Health { value: 3 },
        },
    ]);
    sim
}

impl Simulation {
    /// One tick of `dt` microseconds, in the order of a full `Schedule`:
    /// lifetimes expire, towers fire, projectiles move, hits resolve.  When
    /// the motion or the health updates would leave the integer ranges, the
    /// tick is refused as a whole: the scene stays as it was and the result
    /// is `false`.
    pub fn update(&mut self, dt: u64) -> (completed: bool)
        requires
            old(self).wf(),
        ensures
            final(self).wf(),
            exists|s1: Simulation, s2: Simulation|
                {
                    &&& lifetime_step(*old(self), s1, dt as int)
                    &&& #[trigger] tower_step(s1, s2, dt as int)
                    &&& completed == (motion_fits(s2.bullets@, dt as int) && health_fits(s2))
                    &&& completed ==> exists|s3: Simulation|
                        motion_step(s2, s3, dt as int) && #[trigger] collision_step(s3, *final(self))
                },
            !completed ==> final(self).towers@ == old(self).towers@ && final(self).targets@ == old(self).targets@
                && final(self).bullets@ == old(self).bullets@,
    {
        let mut next = Simulation {
            towers: copy_table(&self.towers),
            targets: copy_table(&self.targets),
            bullets: copy_table(&self.bullets),
        };
        assert(next.wf());
        lifetime_despawn(&mut next, dt);
        let ghost s1 = next;
        tower_shooting(&mut next, dt);
        let ghost s2 = next;
        if !can_move_bullets(&next, dt) || !can_collide(&next) {
            return false;
        }
        move_bullets(&mut next, dt);
        let ghost s3 = next;
        assert(health_fits(s3)) by {
            assert forall|j: int| 0 <= j < s3.targets@.len() implies #[trigger] s3.targets@[j].health.value
                - s3.bullets@.len() >= i64::MIN by {
                assert(s2.targets@[j] == s3.targets@[j]);
            }
        }
        bullet_collision(&mut next);
        *self = next;
        assert(collision_step(s3, *self));
        assert(tower_step(s1, s2, dt as int));
        true
    }
}

/// A copy of a table.
fn copy_table<T: Copy>(v: &Vec<T>) -> (r: Vec<T>)
    ensures
        r@ == v@,
{
    let mut r: Vec<T> = Vec::new();
    let mut i: usize = 0;
    while i < v.len()
        invariant
            0 <= i <= v@.len(),
            r@ == v@.subrange(0, i as int),
        decreases v@.len() - i,
    {
        r.push(v[i]);
        assert(r@ =~= v@.subrange(0, i + 1));
        i = i + 1;
    }
    assert(r@ =~= v@);
    r
}

} // verus!
