use vstd::prelude::*;
use crate::bullet::{Bullet, Lifetime};
use crate::math::{add3, dist_sq, distance_squared, in_box, normalize, sub3, unit, Vector3};
use crate::sim::{Projectile, Schedule, Simulation, System, TargetEntity, TowerEntity};
use crate::timer::{Timer, TimerMode};

verus! {

/// Launch speed of a projectile: 2.5 units per second, in milli-units.
pub const BULLET_SPEED: u32 = 2500;

/// Lifetime of a projectile: one second, in microseconds.
pub const BULLET_LIFETIME: u64 = 1_000_000;

/// A turret: a repeating fire timer and where, relative to the tower, its
/// projectiles appear.
#[derive(Clone, Copy, Debug, PartialEq, Eq, Structural)]
pub struct Tower {
    pub shooting_timer: Timer,
    pub bullet_offset: Vector3,
}

/// World-space point where a tower's projectiles appear.
pub open spec fn spawn_point(t: TowerEntity) -> (int, int, int) {
    add3(t.position@, t.tower.bullet_offset@)
}

/// Index of the target nearest to `s`; among equally near ones, the first.
pub open spec fn nearest(ts: Seq<TargetEntity>, s: (int, int, int)) -> int
    decreases ts.len(),
{
    if ts.len() <= 1 {
        0
    } else {
        let k = nearest(ts.drop_last(), s);
        if dist_sq(ts.last().position@, s) < dist_sq(ts[k].position@, s) {
            ts.len() - 1
        } else {
            k
        }
    }
}

/// Direction, fixed at launch, of a projectile fired by `t` at the targets `ts`.
pub open spec fn aim(t: TowerEntity, ts: Seq<TargetEntity>) -> (int, int, int) {
    let s = spawn_point(t);
    unit(sub3(ts[nearest(ts, s)].position@, s))
}

/// Whether `p` is the projectile that tower `t`, at index `i`, fires at `ts`.
pub open spec fn is_shot(p: Projectile, i: int, t: TowerEntity, ts: Seq<TargetEntity>) -> bool {
    &&& p.position@ == spawn_point(t)
    &&& p.bullet.direction@ == aim(t, ts)
    &&& p.bullet.speed == BULLET_SPEED
    &&& p.lifetime.timer == (Timer { duration: BULLET_LIFETIME, elapsed: 0, mode: TimerMode::Once })
    &&& p.parent == i
}

/// Indices, in order, of the towers that fire when their timers advance by
/// `dt`; none fires when there is no target.
pub open spec fn shooters(towers: Seq<TowerEntity>, has_targets: bool, dt: int) -> Seq<int>
    decreases towers.len(),
{
    if towers.len() == 0 {
        seq![]
    } else {
        let rest = shooters(towers.drop_last(), has_targets, dt);
        if has_targets && towers.last().tower.shooting_timer.fires(dt) {
            rest.push(towers.len() - 1)
        } else {
            rest
        }
    }
}

/// What `tower_shooting` does to the scene: every fire timer advances, the
/// projectiles of the towers that fire are appended in tower order, and the
/// targets stay as they are.
pub open spec fn tower_step(a: Simulation, b: Simulation, dt: int) -> bool {
    let sh = shooters(a.towers@, a.targets@.len() > 0, dt);
    let n = a.bullets@.len();
    &&& b.targets@ == a.targets@
    &&& b.towers@.len() == a.towers@.len()
    &&& forall|i: int| 0 <= i < a.towers@.len() ==> {
        let t = #[trigger] b.towers@[i];
        let u = a.towers@[i];
        &&& t.position == u.position
        &&& t.tower.bullet_offset == u.tower.bullet_offset
        &&& t.tower.shooting_timer == u.tower.shooting_timer.ticked(dt)
    }
    &&& b.bullets@.len() == n + sh.len()
    &&& b.bullets@.subrange(0, n as int) == a.bullets@
    &&& forall|k: int| 0 <= k < sh.len() ==> is_shot(#[trigger] b.bullets@[n + k], sh[k], a.towers@[sh[k]], a.targets@)
}

/// Index of the target nearest to `s`, the first among ties.
fn nearest_target(targets: &Vec<TargetEntity>, s: Vector3) -> (r: usize)
    requires
        targets@.len() > 0,
        forall|j: int| 0 <= j < targets@.len() ==> #[trigger] targets@[j].wf(),
        in_box(s@, 0x2000_0000_0000_0000),
    ensures
        r as int == nearest(targets@, s@),
        r < targets@.len(),
{
    let ghost ts = targets@;
    let n = targets.len();
    let mut best: usize = 0;
    assert(ts[0].wf());
    let mut best_d: u128 = distance_squared(targets[0].position, s);
    assert(ts.subrange(0, 1).len() == 1);
    let mut j: usize = 1;
    while j < n
        invariant
            n == ts.len(),
            ts == targets@,
            forall|k: int| 0 <= k < ts.len() ==> #[trigger] ts[k].wf(),
            in_box(s@, 0x2000_0000_0000_0000),
            1 <= j <= n,
            best < j,
            best as int == nearest(ts.subrange(0, j as int), s@),
            best_d as int == dist_sq(ts[best as int].position@, s@),
        decreases n - j,
    {
        assert(ts[j as int].wf());
        let d = distance_squared(targets[j].position, s);
        assert(ts.subrange(0, j + 1).drop_last() =~= ts.subrange(0, j as int));
        assert(ts.subrange(0, j + 1)[best as int] == ts[best as int]);
        if d < best_d {
            best = j;
            best_d = d;
        }
        j = j + 1;
    }
    assert(ts.subrange(0, n as int) =~= ts);
    best
}

/// Advances every tower's fire timer by `dt`.  Each tower whose timer just
/// finished fires one projectile from its spawn point toward the nearest
/// target, when there is any target.
pub fn tower_shooting(sim: &mut Simulation, dt: u64)
    requires
        old(sim).wf(),
    ensures
        final(sim).wf(),
        tower_step(*old(sim), *final(sim), dt as int),
{
    let ghost tw = sim.towers@;
    let ghost ts = sim.targets@;
    let ghost bs = sim.bullets@;
    let n = sim.towers.len();
    let mut i: usize = 0;
    while i < n
        invariant
            n == tw.len(),
            tw == old(sim).towers@,
            ts == old(sim).targets@,
            bs == old(sim).bullets@,
            old(sim).wf(),
            sim.targets@ == ts,
            sim.towers@.len() == n,
            0 <= i <= n,
            forall|k: int| i <= k < n ==> #[trigger] sim.towers@[k] == tw[k],
            forall|k: int| 0 <= k < i ==> {
                let t = #[trigger] sim.towers@[k];
                &&& t.position == tw[k].position
                &&& t.tower.bullet_offset == tw[k].tower.bullet_offset
                &&& t.tower.shooting_timer == tw[k].tower.shooting_timer.ticked(dt as int)
                &&& t.wf()
            },
            forall|k: int| 0 <= k < sim.bullets@.len() ==> #[trigger] sim.bullets@[k].wf(),
            ({
                let sh = shooters(tw.subrange(0, i as int), ts.len() > 0, dt as int);
                &&& sim.bullets@.len() == bs.len() + sh.len()
                &&& sim.bullets@.subrange(0, bs.len() as int) == bs
                &&& forall|k: int| 0 <= k < sh.len() ==>
                    is_shot(#[trigger] sim.bullets@[bs.len() + k], sh[k], tw[sh[k]], ts)
            }),
        decreases n - i,
    {
        let ghost before = sim.bullets@;
        let mut te = sim.towers[i];
        assert(tw[i as int].wf());
        let fired = te.tower.shooting_timer.tick(dt);
        sim.towers.set(i, te);
        proof {
            assert(tw.subrange(0, i + 1).drop_last() =~= tw.subrange(0, i as int));
            assert(tw.subrange(0, i + 1).last() == tw[i as int]);
        }
        if fired && sim.targets.len() > 0 {
            let pos = te.position;
            let off = te.tower.bullet_offset;
            let spawn = Vector3 { x: pos.x + off.x, y: pos.y + off.y, z: pos.z + off.z };
            let k = nearest_target(&sim.targets, spawn);
            let tp = sim.targets[k].position;
            assert(ts[k as int].wf());
            let dir = normalize(Vector3 { x: tp.x - spawn.x, y: tp.y - spawn.y, z: tp.z - spawn.z });
            let p = Projectile {
                position: spawn,
                bullet: Bullet { speed: BULLET_SPEED, direction: dir },
                lifetime: Lifetime { timer: Timer::new(BULLET_LIFETIME, TimerMode::Once) },
                parent: i,
            };
            sim.bullets.push(p);
            proof {
                let sh = shooters(tw.subrange(0, i + 1), ts.len() > 0, dt as int);
                assert(sim.bullets@.subrange(0, bs.len() as int) =~= before.subrange(0, bs.len() as int));
                assert forall|k: int| 0 <= k < sh.len() implies
                    is_shot(#[trigger] sim.bullets@[bs.len() + k], sh[k], tw[sh[k]], ts) by {
                    if k < sh.len() - 1 {
                        assert(sim.bullets@[bs.len() + k] == before[bs.len() + k]);
                    }
                }
            }
        }
        i = i + 1;
    }
    assert(tw.subrange(0, n as int) =~= tw);
}

/// With no target, no tower fires, whatever its timer does.
pub proof fn lemma_no_target_no_shot(towers: Seq<TowerEntity>, dt: int)
    ensures
        shooters(towers, false, dt) == Seq::<int>::empty(),
    decreases towers.len(),
{
    if towers.len() > 0 {
        lemma_no_target_no_shot(towers.drop_last(), dt);
    }
}

/// With at least one target, every tower whose timer finishes fires exactly
/// one projectile, and no other tower fires.
pub proof fn lemma_each_due_tower_fires_once(towers: Seq<TowerEntity>, dt: int)
    ensures
        ({
            let sh = shooters(towers, true, dt);
            &&& forall|k: int| 0 <= k < sh.len() ==> 0 <= #[trigger] sh[k] < towers.len()
                && towers[sh[k]].tower.shooting_timer.fires(dt)
            &&& forall|k1: int, k2: int| 0 <= k1 < k2 < sh.len() ==> #[trigger] sh[k1] < #[trigger] sh[k2]
            &&& forall|i: int| 0 <= i < towers.len() && (#[trigger] towers[i]).tower.shooting_timer.fires(dt)
                ==> exists|k: int| 0 <= k < sh.len() && sh[k] == i
        }),
    decreases towers.len(),
{
    if towers.len() > 0 {
        let init = towers.drop_last();
        lemma_each_due_tower_fires_once(init, dt);
        let rest = shooters(init, true, dt);
        let sh = shooters(towers, true, dt);
        assert forall|k: int| 0 <= k < rest.len() implies #[trigger] rest[k] < towers.len() - 1 by {}
        assert forall|i: int| 0 <= i < towers.len() && (#[trigger] towers[i]).tower.shooting_timer.fires(dt)
            implies exists|k: int| 0 <= k < sh.len() && sh[k] == i by {
            if i < towers.len() - 1 {
                assert(init[i] == towers[i]);
                let k = choose|k: int| 0 <= k < rest.len() && rest[k] == i;
                assert(sh[k] == i);
            } else {
                assert(sh[sh.len() - 1] == i);
            }
        }
    }
}

/// Registers the targeting system.
pub struct TowerPlugin;

impl TowerPlugin {
    pub fn build(&self, schedule: &mut Schedule)
        ensures
            *final(schedule) == (Schedule { tower_shooting: true, ..*old(schedule) }),
    {
        schedule.add_system(System::TowerShooting);
    }
}

} // verus!
