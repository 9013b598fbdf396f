use vstd::prelude::*;
use crate::math::{
    add3, dist_sq, distance_squared, in_box, lemma_unit_ignores_length, normalize, scale3, unit, Vector3,
};
use crate::sim::{Projectile, Schedule, Simulation, System, TargetEntity, FLIGHT_LIMIT};
use crate::timer::{lemma_once_fires_when_due, run, total, Timer, TimerMode};

verus! {

/// A projectile hits a target when their squared distance is below the
/// square of this radius (0.2 units, in pico-units).
pub const HIT_RADIUS: u128 = 200_000_000_000;

/// Motion of a projectile: speed in milli-units per second and a direction
/// fixed at launch.
#[derive(Clone, Copy, Debug, PartialEq, Eq, Structural)]
pub struct Bullet {
    pub speed: u32,
    pub direction: Vector3,
}

/// A one-shot countdown after which the entity is destroyed.
#[derive(Clone, Copy, Debug, PartialEq, Eq, Structural)]
pub struct Lifetime {
    pub timer: Timer,
}

/// The projectiles that survive advancing every lifetime by `dt`, with their
/// timers advanced, in the order they had.
pub open spec fn aged(bs: Seq<Projectile>, dt: int) -> Seq<Projectile>
    decreases bs.len(),
{
    if bs.len() == 0 {
        seq![]
    } else {
        let rest = aged(bs.drop_last(), dt);
        let p = bs.last();
        if p.lifetime.timer.fires(dt) {
            rest
        } else {
            rest.push(Projectile { lifetime: Lifetime { timer: p.lifetime.timer.ticked(dt) }, ..p })
        }
    }
}

/// What `lifetime_despawn` does to the scene: only the projectile table
/// changes, to the survivors with their lifetimes advanced.
pub open spec fn lifetime_step(a: Simulation, b: Simulation, dt: int) -> bool {
    &&& b.bullets@ == aged(a.bullets@, dt)
    &&& b.towers@ == a.towers@
    &&& b.targets@ == a.targets@
}

/// Advances every lifetime by `dt` and destroys the projectiles whose
/// lifetime has just finished.
pub fn lifetime_despawn(sim: &mut Simulation, dt: u64)
    requires
        old(sim).wf(),
    ensures
        final(sim).wf(),
        lifetime_step(*old(sim), *final(sim), dt as int),
{
    let ghost bs = sim.bullets@;
    let mut kept: Vec<Projectile> = Vec::new();
    let n = sim.bullets.len();
    let mut i: usize = 0;
    while i < n
        invariant
            n == bs.len(),
            sim.bullets@ == bs,
            sim.wf(),
            0 <= i <= n,
            kept@ == aged(bs.subrange(0, i as int), dt as int),
            forall|k: int| 0 <= k < kept@.len() ==> #[trigger] kept@[k].wf(),
        decreases n - i,
    {
        let mut p = sim.bullets[i];
        assert(p.wf());
        let fired = p.lifetime.timer.tick(dt);
        assert(bs.subrange(0, i + 1).drop_last() =~= bs.subrange(0, i as int));
        if !fired {
            kept.push(p);
        }
        i = i + 1;
    }
    assert(bs.subrange(0, n as int) =~= bs);
    sim.bullets = kept;
}

/// Where a projectile stands after flying for `dt` microseconds along its
/// renormalized direction.
pub open spec fn moved(p: Projectile, dt: int) -> (int, int, int) {
    add3(p.position@, scale3(unit(p.bullet.direction@), p.bullet.speed * dt))
}

/// Whether every projectile stays inside the flight bounds after `dt`.
pub open spec fn motion_fits(bs: Seq<Projectile>, dt: int) -> bool {
    forall|i: int| 0 <= i < bs.len() ==> in_box(#[trigger] moved(bs[i], dt), FLIGHT_LIMIT as int)
}

fn move_coord(pos: i64, u: i64, k: i128) -> (r: i64)
    requires
        -1000 <= u <= 1000,
        0 <= k <= 0xffff_ffff * 0xffff_ffff_ffff_ffffi128,
        -(FLIGHT_LIMIT as int) <= pos + u * k <= FLIGHT_LIMIT,
    ensures
        r == pos + u * k,
{
    assert(-1000 * (0xffff_ffff * 0xffff_ffff_ffff_ffffi128) <= u * k <= 1000 * (0xffff_ffff * 0xffff_ffff_ffff_ffffi128)) by (nonlinear_arith)
        requires
            -1000 <= u <= 1000,
            0 <= k <= 0xffff_ffff * 0xffff_ffff_ffff_ffffi128,
    ;
    (pos as i128 + (u as i128) * k) as i64
}

/// What `move_bullets` does to the scene: every projectile moves, nothing
/// else changes.
pub open spec fn motion_step(a: Simulation, b: Simulation, dt: int) -> bool {
    &&& b.bullets@.len() == a.bullets@.len()
    &&& forall|i: int| 0 <= i < a.bullets@.len() ==> {
        let p = #[trigger] b.bullets@[i];
        let q = a.bullets@[i];
        &&& p.position@ == moved(q, dt)
        &&& p.bullet == q.bullet
        &&& p.lifetime == q.lifetime
        &&& p.parent == q.parent
    }
    &&& b.towers@ == a.towers@
    &&& b.targets@ == a.targets@
}

/// Moves every projectile by its renormalized direction times its speed
/// times the elapsed time `dt`.
pub fn move_bullets(sim: &mut Simulation, dt: u64)
    requires
        old(sim).wf(),
        motion_fits(old(sim).bullets@, dt as int),
    ensures
        final(sim).wf(),
        motion_step(*old(sim), *final(sim), dt as int),
{
    let ghost bs = sim.bullets@;
    let n = sim.bullets.len();
    let mut i: usize = 0;
    while i < n
        invariant
            n == bs.len(),
            sim.bullets@.len() == n,
            sim.wf(),
            motion_fits(bs, dt as int),
            0 <= i <= n,
            forall|k: int| i <= k < n ==> #[trigger] sim.bullets@[k] == bs[k],
            forall|k: int| 0 <= k < i ==> {
                let p = #[trigger] sim.bullets@[k];
                let q = bs[k];
                &&& p.position@ == moved(q, dt as int)
                &&& p.bullet == q.bullet
                &&& p.lifetime == q.lifetime
                &&& p.parent == q.parent
            },
            sim.towers@ == old(sim).towers@,
            sim.targets@ == old(sim).targets@,
        decreases n - i,
    {
        let mut p = sim.bullets[i];
        assert(p.wf());
        assert(in_box(moved(bs[i as int], dt as int), FLIGHT_LIMIT as int));
        let u = normalize(p.bullet.direction);
        let speed: i128 = p.bullet.speed as i128;
        let t: i128 = dt as i128;
        assert(0 <= speed * t <= 0xffff_ffff * 0xffff_ffff_ffff_ffffi128) by (nonlinear_arith)
            requires
                0 <= speed <= 0xffff_ffff,
                0 <= t <= 0xffff_ffff_ffff_ffff,
        ;
        let k: i128 = speed * t;
        p.position = Vector3 {
            x: move_coord(p.position.x, u.x, k),
            y: move_coord(p.position.y, u.y, k),
            z: move_coord(p.position.z, u.z, k),
        };
        sim.bullets.set(i, p);
        i = i + 1;
    }
}

/// Whether a projectile at `pos` is within the hit radius of target `t`.
pub open spec fn hits(pos: (int, int, int), t: TargetEntity) -> bool {
    dist_sq(pos, t.position@) < HIT_RADIUS * HIT_RADIUS
}

/// The first target, from index `k` on, that a projectile at `pos` hits.
pub open spec fn first_hit_from(pos: (int, int, int), ts: Seq<TargetEntity>, k: int) -> Option<int>
    decreases ts.len() - k,
{
    if k < 0 || k >= ts.len() {
        None
    } else if hits(pos, ts[k]) {
        Some(k)
    } else {
        first_hit_from(pos, ts, k + 1)
    }
}

/// The first target, in table order, that a projectile at `pos` hits.
pub open spec fn first_hit(pos: (int, int, int), ts: Seq<TargetEntity>) -> Option<int> {
    first_hit_from(pos, ts, 0)
}

/// How many of the projectiles `bs` hit target `j` first.
pub open spec fn hit_count(bs: Seq<Projectile>, ts: Seq<TargetEntity>, j: int) -> int
    decreases bs.len(),
{
    if bs.len() == 0 {
        0
    } else {
        hit_count(bs.drop_last(), ts, j) + if first_hit(bs.last().position@, ts) == Some(j) {
            1int
        } else {
            0int
        }
    }
}

/// The projectiles of `bs` that hit no target, in the order they had.
pub open spec fn survivors(bs: Seq<Projectile>, ts: Seq<TargetEntity>) -> Seq<Projectile>
    decreases bs.len(),
{
    if bs.len() == 0 {
        seq![]
    } else {
        let rest = survivors(bs.drop_last(), ts);
        if first_hit(bs.last().position@, ts) is None {
            rest.push(bs.last())
        } else {
            rest
        }
    }
}

proof fn lemma_hit_count_bounds(bs: Seq<Projectile>, ts: Seq<TargetEntity>, j: int)
    ensures
        0 <= hit_count(bs, ts, j) <= bs.len(),
    decreases bs.len(),
{
    if bs.len() > 0 {
        lemma_hit_count_bounds(bs.drop_last(), ts, j);
    }
}

proof fn lemma_first_hit_from_range(pos: (int, int, int), ts: Seq<TargetEntity>, k: int)
    ensures
        first_hit_from(pos, ts, k) matches Some(j) ==> k <= j < ts.len() && hits(pos, ts[j]),
    decreases ts.len() - k,
{
    if 0 <= k < ts.len() && !hits(pos, ts[k]) {
        lemma_first_hit_from_range(pos, ts, k + 1);
    }
}

proof fn lemma_first_hit_from_found(pos: (int, int, int), ts: Seq<TargetEntity>, k: int, j: int)
    requires
        0 <= k <= j < ts.len(),
        hits(pos, ts[j]),
    ensures
        first_hit_from(pos, ts, k) is Some,
    decreases j - k,
{
    if !hits(pos, ts[k]) {
        lemma_first_hit_from_found(pos, ts, k + 1, j);
    }
}

/// A projectile within the hit radius of some target is charged to exactly
/// one target, exactly once, and does not survive the tick.
pub proof fn lemma_hit_is_single(p: Projectile, ts: Seq<TargetEntity>, j: int)
    requires
        0 <= j < ts.len(),
        hits(p.position@, ts[j]),
    ensures
        exists|k: int|
            0 <= k < ts.len() && hits(p.position@, ts[k]) && #[trigger] hit_count(seq![p], ts, k) == 1
                && forall|m: int| m != k ==> #[trigger] hit_count(seq![p], ts, m) == 0,
        survivors(seq![p], ts) == Seq::<Projectile>::empty(),
{
    let pos = p.position@;
    lemma_first_hit_from_found(pos, ts, 0, j);
    lemma_first_hit_from_range(pos, ts, 0);
    let k = first_hit(pos, ts)->Some_0;
    let one = seq![p];
    assert(one.drop_last() =~= Seq::<Projectile>::empty());
    assert(one.last() == p);
    assert(hit_count(one.drop_last(), ts, k) == 0);
    assert(hit_count(one, ts, k) == 1);
    assert forall|m: int| m != k implies #[trigger] hit_count(one, ts, m) == 0 by {
        assert(hit_count(one.drop_last(), ts, m) == 0);
    }
    assert(survivors(one.drop_last(), ts) == Seq::<Projectile>::empty());
}

/// Whether no health can fall below the smallest `i64`, even if every
/// projectile hits the same target.
pub open spec fn health_fits(a: Simulation) -> bool {
    forall|j: int| 0 <= j < a.targets@.len() ==> #[trigger] a.targets@[j].health.value - a.bullets@.len() >= i64::MIN
}

/// What `bullet_collision` does to the scene: projectiles that hit are
/// gone, and each target loses one health per projectile charged to it.
pub open spec fn collision_step(a: Simulation, b: Simulation) -> bool {
    &&& b.bullets@ == survivors(a.bullets@, a.targets@)
    &&& b.targets@.len() == a.targets@.len()
    &&& forall|j: int| 0 <= j < a.targets@.len() ==> {
        let t = #[trigger] b.targets@[j];
        let u = a.targets@[j];
        &&& t.position == u.position
        &&& t.target == u.target
        &&& t.health.value == u.health.value - hit_count(a.bullets@, a.targets@, j)
    }
    &&& b.towers@ == a.towers@
}

/// Checks every projectile against the targets in table order: the first
/// target within the hit radius loses one point of health and the projectile
/// is destroyed.  Projectiles that hit nothing stay.
pub fn bullet_collision(sim: &mut Simulation)
    requires
        old(sim).wf(),
        health_fits(*old(sim)),
    ensures
        final(sim).wf(),
        collision_step(*old(sim), *final(sim)),
{
    let ghost bs = sim.bullets@;
    let ghost ts = sim.targets@;
    let mut kept: Vec<Projectile> = Vec::new();
    let nb = sim.bullets.len();
    let nt = sim.targets.len();
    let mut i: usize = 0;
    while i < nb
        invariant
            nb == bs.len(),
            nt == ts.len(),
            sim.bullets@ == bs,
            sim.targets@.len() == nt,
            sim.towers@ == old(sim).towers@,
            ts == old(sim).targets@,
            bs == old(sim).bullets@,
            old(sim).wf(),
            forall|j: int| 0 <= j < nt ==> #[trigger] ts[j].health.value - nb >= i64::MIN,
            0 <= i <= nb,
            forall|j: int| 0 <= j < nt ==> {
                let t = #[trigger] sim.targets@[j];
                &&& t.position == ts[j].position
                &&& t.target == ts[j].target
                &&& t.health.value == ts[j].health.value - hit_count(bs.subrange(0, i as int), ts, j)
            },
            kept@ == survivors(bs.subrange(0, i as int), ts),
            forall|k: int| 0 <= k < kept@.len() ==> #[trigger] kept@[k].wf(),
            forall|k: int| 0 <= k < nt ==> #[trigger] sim.targets@[k].wf(),
        decreases nb - i,
    {
        let p = sim.bullets[i];
        let ghost pos = p.position@;
        assert(p.wf());
        let mut j: usize = 0;
        let mut found = false;
        while !found && j < nt
            invariant
                nt == ts.len(),
                sim.targets@.len() == nt,
                old(sim).wf(),
                ts == old(sim).targets@,
                p.wf(),
                pos == p.position@,
                0 <= j <= nt,
                forall|m: int| 0 <= m < nt ==> (#[trigger] sim.targets@[m]).position == ts[m].position,
                found ==> j < nt && first_hit(pos, ts) == Some(j as int),
                !found ==> first_hit(pos, ts) == first_hit_from(pos, ts, j as int),
            decreases nt - j + if found { 0int } else { 1int },
        {
            let t = sim.targets[j];
            assert(ts[j as int].wf());
            if distance_squared(p.position, t.position) < HIT_RADIUS * HIT_RADIUS {
                found = true;
            } else {
                j = j + 1;
            }
        }
        proof {
            lemma_hit_count_bounds(bs.subrange(0, i as int), ts, j as int);
            assert(bs.subrange(0, i + 1).drop_last() =~= bs.subrange(0, i as int));
            assert(bs.subrange(0, i + 1).last() == p);
        }
        if found {
            let mut t = sim.targets[j];
            t.health.value = t.health.value - 1;
            sim.targets.set(j, t);
            assert forall|k: int| 0 <= k < nt implies #[trigger] sim.targets@[k].wf() by {
                assert(old(sim).targets@[k].wf());
            }
        } else {
            kept.push(p);
        }
        i = i + 1;
    }
    assert(bs.subrange(0, nb as int) =~= bs);
    sim.bullets = kept;
}

/// Where a projectile starting at `pos` stands after the ticks `dts`, each
/// moving it as `move_bullets` does.
pub open spec fn flown(pos: (int, int, int), dir: (int, int, int), speed: int, dts: Seq<u64>) -> (int, int, int)
    decreases dts.len(),
{
    if dts.len() == 0 {
        pos
    } else {
        add3(flown(pos, dir, speed, dts.drop_last()), scale3(unit(dir), speed * dts.last()))
    }
}

/// Motion depends only on the accumulated time: after any sequence of
/// ticks a projectile stands at its start plus its renormalized direction
/// times its speed times the sum of the ticks.
pub proof fn lemma_motion_accumulates(pos: (int, int, int), dir: (int, int, int), speed: int, dts: Seq<u64>)
    ensures
        flown(pos, dir, speed, dts) == add3(pos, scale3(unit(dir), speed * total(dts))),
    decreases dts.len(),
{
    let u = unit(dir);
    if dts.len() == 0 {
        assert(speed * total(dts) == 0);
        assert(u.0 * 0 == 0 && u.1 * 0 == 0 && u.2 * 0 == 0);
    } else {
        let init = dts.drop_last();
        lemma_motion_accumulates(pos, dir, speed, init);
        let a = speed * total(init);
        let b = speed * dts.last();
        assert(speed * total(dts) == a + b) by (nonlinear_arith)
            requires
                total(dts) == total(init) + dts.last(),
                a == speed * total(init),
                b == speed * dts.last(),
        ;
        assert(u.0 * (a + b) == u.0 * a + u.0 * b) by (nonlinear_arith);
        assert(u.1 * (a + b) == u.1 * a + u.1 * b) by (nonlinear_arith);
        assert(u.2 * (a + b) == u.2 * a + u.2 * b) by (nonlinear_arith);
        let f = flown(pos, dir, speed, init);
        assert(flown(pos, dir, speed, dts) == add3(f, scale3(u, b)));
        assert(f == add3(pos, scale3(u, a)));
        assert(add3(add3(pos, scale3(u, a)), scale3(u, b)) == add3(pos, scale3(u, a + b)));
    }
}

/// Registers the projectile systems: lifetimes, motion and hits.
pub struct BulletPlugin;

impl BulletPlugin {
    pub fn build(&self, schedule: &mut Schedule)
        ensures
            *final(schedule) == (Schedule {
                lifetime_despawn: true,
                move_bullets: true,
                bullet_collision: true,
                ..*old(schedule)
            }),
    {
        schedule.add_system(System::LifetimeDespawn);
        schedule.add_system(System::MoveBullets);
        schedule.add_system(System::BulletCollision);
    }
}

/// Whether `move_bullets` may run with `dt`: every projectile stays inside
/// the flight bounds.
pub fn can_move_bullets(sim: &Simulation, dt: u64) -> (r: bool)
    requires
        sim.wf(),
    ensures
        r == motion_fits(sim.bullets@, dt as int),
{
    let n = sim.bullets.len();
    let mut i: usize = 0;
    while i < n
        invariant
            n == sim.bullets@.len(),
            sim.wf(),
            0 <= i <= n,
            forall|k: int| 0 <= k < i ==> in_box(#[trigger] moved(sim.bullets@[k], dt as int), FLIGHT_LIMIT as int),
        decreases n - i,
    {
        let p = sim.bullets[i];
        assert(p.wf());
        let u = normalize(p.bullet.direction);
        let speed: i128 = p.bullet.speed as i128;
        let t: i128 = dt as i128;
        assert(0 <= speed * t <= 0xffff_ffff * 0xffff_ffff_ffff_ffffi128) by (nonlinear_arith)
            requires
                0 <= speed <= 0xffff_ffff,
                0 <= t <= 0xffff_ffff_ffff_ffff,
        ;
        let k: i128 = speed * t;
        let lim: i128 = FLIGHT_LIMIT as i128;
        let ux: i128 = u.x as i128;
        let uy: i128 = u.y as i128;
        let uz: i128 = u.z as i128;
        assert(-1000 * (0xffff_ffff * 0xffff_ffff_ffff_ffffi128) <= ux * k <= 1000 * (0xffff_ffff * 0xffff_ffff_ffff_ffffi128)) by (nonlinear_arith)
            requires -1000 <= ux <= 1000, 0 <= k <= 0xffff_ffff * 0xffff_ffff_ffff_ffffi128;
        assert(-1000 * (0xffff_ffff * 0xffff_ffff_ffff_ffffi128) <= uy * k <= 1000 * (0xffff_ffff * 0xffff_ffff_ffff_ffffi128)) by (nonlinear_arith)
            requires -1000 <= uy <= 1000, 0 <= k <= 0xffff_ffff * 0xffff_ffff_ffff_ffffi128;
        assert(-1000 * (0xffff_ffff * 0xffff_ffff_ffff_ffffi128) <= uz * k <= 1000 * (0xffff_ffff * 0xffff_ffff_ffff_ffffi128)) by (nonlinear_arith)
            requires -1000 <= uz <= 1000, 0 <= k <= 0xffff_ffff * 0xffff_ffff_ffff_ffffi128;
        let x: i128 = p.position.x as i128 + ux * k;
        let y: i128 = p.position.y as i128 + uy * k;
        let z: i128 = p.position.z as i128 + uz * k;
        if !(-lim <= x && x <= lim && -lim <= y && y <= lim && -lim <= z && z <= lim) {
            assert(!in_box(moved(sim.bullets@[i as int], dt as int), FLIGHT_LIMIT as int));
            return false;
        }
        i = i + 1;
    }
    true
}

/// Whether `bullet_collision` may run.
pub fn can_collide(sim: &Simulation) -> (r: bool)
    ensures
        r == health_fits(*sim),
{
    let nb = sim.bullets.len();
    let nt = sim.targets.len();
    let mut j: usize = 0;
    while j < nt
        invariant
            nt == sim.targets@.len(),
            nb == sim.bullets@.len(),
            0 <= j <= nt,
            forall|m: int| 0 <= m < j ==> #[trigger] sim.targets@[m].health.value - nb >= i64::MIN,
        decreases nt - j,
    {
        if (sim.targets[j].health.value as i128) - (nb as i128) < (i64::MIN as i128) {
            return false;
        }
        j = j + 1;
    }
    true
}

/// Motion depends on where a projectile's direction points, not on how
/// long the direction vector is.
pub proof fn lemma_motion_ignores_direction_length(p: Projectile, q: Projectile, k: int, dt: int)
    requires
        k > 0,
        q.position == p.position,
        q.bullet.speed == p.bullet.speed,
        q.bullet.direction@ == scale3(p.bullet.direction@, k),
    ensures
        moved(q, dt) == moved(p, dt),
{
    lemma_unit_ignores_length(p.bullet.direction@, k);
}

/// Over any run of `move_bullets` calls, a projectile stands at its start
/// plus its renormalized direction times its speed times the total time,
/// however that time was split into ticks.
pub proof fn lemma_motion_over_ticks(states: Seq<Simulation>, dts: Seq<u64>, i: int)
    requires
        states.len() == dts.len() + 1,
        forall|k: int| 0 <= k < dts.len() ==> #[trigger] motion_step(states[k], states[k + 1], dts[k] as int),
        0 <= i < states[0].bullets@.len(),
    ensures
        ({
            let p = states[0].bullets@[i];
            let q = states.last().bullets@[i];
            &&& i < states.last().bullets@.len()
            &&& q.bullet == p.bullet
            &&& q.position@ == add3(p.position@, scale3(unit(p.bullet.direction@), p.bullet.speed * total(dts)))
        }),
    decreases dts.len(),
{
    let p = states[0].bullets@[i];
    lemma_flown_over_ticks(states, dts, i);
    lemma_motion_accumulates(p.position@, p.bullet.direction@, p.bullet.speed as int, dts);
}

proof fn lemma_flown_over_ticks(states: Seq<Simulation>, dts: Seq<u64>, i: int)
    requires
        states.len() == dts.len() + 1,
        forall|k: int| 0 <= k < dts.len() ==> #[trigger] motion_step(states[k], states[k + 1], dts[k] as int),
        0 <= i < states[0].bullets@.len(),
    ensures
        ({
            let p = states[0].bullets@[i];
            let q = states.last().bullets@[i];
            &&& i < states.last().bullets@.len()
            &&& q.bullet == p.bullet
            &&& q.position@ == flown(p.position@, p.bullet.direction@, p.bullet.speed as int, dts)
        }),
    decreases dts.len(),
{
    if dts.len() > 0 {
        let n = dts.len() as int;
        let init = states.subrange(0, n);
        assert forall|k: int| 0 <= k < dts.drop_last().len() implies #[trigger] motion_step(
            init[k],
            init[k + 1],
            dts.drop_last()[k] as int,
        ) by {
            assert(motion_step(states[k], states[k + 1], dts[k] as int));
        }
        lemma_flown_over_ticks(init, dts.drop_last(), i);
        assert(motion_step(states[n - 1], states[n], dts[n - 1] as int));
        assert(states[n - 1].bullets@[i] == init.last().bullets@[i]);
        assert(states.last().bullets@[i] == states[n].bullets@[i]);
    }
}

/// A projectile alone in the scene, with a fresh one-shot lifetime of `d`,
/// is still there after the ticks `dts` exactly when they total less than
/// `d`: it is destroyed on the tick when the accumulated time first
/// reaches `d`, never before.
pub proof fn lemma_lifetime_over_ticks(states: Seq<Simulation>, dts: Seq<u64>, p: Projectile, d: u64)
    requires
        d > 0,
        p.lifetime.timer == (Timer { duration: d, elapsed: 0, mode: TimerMode::Once }),
        states.len() == dts.len() + 1,
        states[0].bullets@ == seq![p],
        forall|k: int| 0 <= k < dts.len() ==> #[trigger] lifetime_step(states[k], states[k + 1], dts[k] as int),
    ensures
        total(dts) < d ==> states.last().bullets@ == seq![
            Projectile { lifetime: Lifetime { timer: run(p.lifetime.timer, dts) }, ..p },
        ],
        total(dts) >= d ==> states.last().bullets@.len() == 0,
    decreases dts.len(),
{
    let t = p.lifetime.timer;
    if dts.len() == 0 {
        assert(seq![p] =~= seq![Projectile { lifetime: Lifetime { timer: t }, ..p }]);
    } else {
        let n = dts.len() as int;
        let init = states.subrange(0, n);
        let di = dts.drop_last();
        assert forall|k: int| 0 <= k < di.len() implies #[trigger] lifetime_step(init[k], init[k + 1], di[k] as int) by {
            assert(lifetime_step(states[k], states[k + 1], dts[k] as int));
        }
        lemma_lifetime_over_ticks(init, di, p, d);
        assert(lifetime_step(states[n - 1], states[n], dts[n - 1] as int));
        assert(init.last() == states[n - 1]);
        lemma_once_fires_when_due(d, dts);
        assert(dts.subrange(0, n - 1) =~= di);
        assert(run(t, dts.subrange(0, n - 1)).fires(dts[n - 1] as int) <==> total(di) < d <= total(di) + dts[n - 1]);
        let b = states[n - 1].bullets@;
        if total(di) < d {
            let p1 = Projectile { lifetime: Lifetime { timer: run(t, di) }, ..p };
            assert(b.drop_last() =~= Seq::<Projectile>::empty());
            assert(b.last() == p1);
            assert(aged(b.drop_last(), dts[n - 1] as int) =~= Seq::<Projectile>::empty());
            if total(dts) < d {
                assert(aged(b, dts[n - 1] as int) =~= seq![
                    Projectile { lifetime: Lifetime { timer: run(t, dts) }, ..p },
                ]);
            }
        } else {
            lemma_total_nonneg_step(dts);
            assert(aged(b, dts[n - 1] as int) =~= Seq::<Projectile>::empty());
        }
    }
}

proof fn lemma_total_nonneg_step(dts: Seq<u64>)
    requires
        dts.len() > 0,
    ensures
        total(dts) >= total(dts.drop_last()),
{
}

/// A projectile alone in the scene that lies within the hit radius of some
/// target is destroyed by `bullet_collision`, and exactly one target, the
/// first within the radius, loses exactly one health; one within the radius
/// of no target stays and no health changes.
pub proof fn lemma_collision_of_one(a: Simulation, b: Simulation, p: Projectile)
    requires
        a.bullets@ == seq![p],
        collision_step(a, b),
    ensures
        (exists|j: int| 0 <= j < a.targets@.len() && hits(p.position@, #[trigger] a.targets@[j])) ==> {
            &&& b.bullets@.len() == 0
            &&& exists|k: int|
                0 <= k < a.targets@.len() && first_hit(p.position@, a.targets@) == Some(k)
                    && #[trigger] b.targets@[k].health.value == a.targets@[k].health.value - 1
                    && forall|m: int| 0 <= m < a.targets@.len() && m != k ==> #[trigger] b.targets@[m].health
                        == a.targets@[m].health
        },
        (forall|j: int| 0 <= j < a.targets@.len() ==> !hits(p.position@, #[trigger] a.targets@[j])) ==> {
            &&& b.bullets@ == seq![p]
            &&& forall|m: int| 0 <= m < a.targets@.len() ==> #[trigger] b.targets@[m].health == a.targets@[m].health
        },
{
    let ts = a.targets@;
    let one = seq![p];
    assert(one.drop_last() =~= Seq::<Projectile>::empty());
    assert(one.last() == p);
    if exists|j: int| 0 <= j < ts.len() && hits(p.position@, #[trigger] ts[j]) {
        let j = choose|j: int| 0 <= j < ts.len() && hits(p.position@, #[trigger] ts[j]);
        lemma_hit_is_single(p, ts, j);
        lemma_first_hit_from_found(p.position@, ts, 0, j);
        lemma_first_hit_from_range(p.position@, ts, 0);
        let k = first_hit(p.position@, ts)->Some_0;
        assert(hit_count(one.drop_last(), ts, k) == 0);
        assert(hit_count(one, ts, k) == 1);
        assert forall|m: int| 0 <= m < ts.len() && m != k implies #[trigger] b.targets@[m].health == ts[m].health by {
            assert(hit_count(one.drop_last(), ts, m) == 0);
            assert(hit_count(one, ts, m) == 0);
        }
        assert(b.targets@[k].health.value == ts[k].health.value - 1);
    }
    if forall|j: int| 0 <= j < ts.len() ==> !hits(p.position@, #[trigger] ts[j]) {
        if first_hit(p.position@, ts) is Some {
            lemma_first_hit_from_range(p.position@, ts, 0);
        }
        assert(survivors(one.drop_last(), ts) =~= Seq::<Projectile>::empty());
        assert(survivors(one, ts) =~= seq![p]);
        assert forall|m: int| 0 <= m < ts.len() implies #[trigger] b.targets@[m].health == ts[m].health by {
            assert(hit_count(one.drop_last(), ts, m) == 0);
            assert(hit_count(one, ts, m) == 0);
        }
    }
}

} // verus!
