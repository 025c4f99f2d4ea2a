//! One fixed time step: gravity, semi-implicit Euler integration, and
//! clamping against the walls of the domain.
//!
//! Every particle is advanced on its own: nothing of one particle is read
//! while another is updated.
use vstd::prelude::*;
use crate::fixed::{div_toward_zero, fits_i64, trunc_div, SCALE};
use crate::model::{Domain, Motion, Particle, PhysicsConfig, PhysicsError, TimeStep, Vec2};

verus! {

/// Change of velocity that gravity gives in one step, in fixed-point units.
pub open spec fn gravity_delta(dt: TimeStep, config: PhysicsConfig) -> int {
    trunc_div(config.gravity * SCALE * dt.num, dt.den as int)
}

/// Distance covered in one step at velocity `v`.
pub open spec fn drift(v: int, dt: TimeStep) -> int {
    trunc_div(v * dt.num, dt.den as int)
}

/// Largest distance from the origin, on an axis of length `extent`, at which
/// a particle of the given radius still lies inside the domain. Negative when
/// the particle is wider than the domain.
pub open spec fn half_bound(extent: u32, radius: u32) -> int {
    extent * SCALE / 2 - radius * SCALE
}

/// Whether a coordinate lies beyond its half bound.
pub open spec fn collides(pos: int, half: int) -> bool {
    pos > half || -pos > half
}

/// The coordinate after a collision: pinned to the bound on its own side
/// (the origin counts as the positive side).
pub open spec fn clamp_position(pos: int, half: int) -> int {
    if collides(pos, half) {
        if pos >= 0 {
            half
        } else {
            -half
        }
    } else {
        pos
    }
}

/// The velocity component after a collision: reversed and damped, rounded
/// toward zero. When `|vel * damp_permille| < 1000` that rounds to zero: the
/// particle stops on that axis instead of bouncing back.
pub open spec fn reflect_velocity(pos: int, vel: int, half: int, damp_permille: int) -> int {
    if collides(pos, half) {
        -trunc_div(vel * damp_permille, 1000)
    } else {
        vel
    }
}

/// Gravity, then position integration with the new velocity.
pub open spec fn free_motion(m: Motion, dt: TimeStep, config: PhysicsConfig) -> Motion {
    let vy = m.vy + gravity_delta(dt, config);
    Motion { x: m.x + drift(m.vx, dt), y: m.y + drift(vy, dt), vx: m.vx, vy: vy }
}

/// Collision resolution on each axis independently.
pub open spec fn bounce(m: Motion, radius: u32, domain: Domain, config: PhysicsConfig) -> Motion {
    let hw = half_bound(domain.width, radius);
    let hh = half_bound(domain.height, radius);
    let d = config.damp_permille as int;
    Motion {
        x: clamp_position(m.x, hw),
        y: clamp_position(m.y, hh),
        vx: reflect_velocity(m.x, m.vx, hw, d),
        vy: reflect_velocity(m.y, m.vy, hh, d),
    }
}

/// The motion of a particle of the given radius one step later.
pub open spec fn next_motion(
    m: Motion,
    radius: u32,
    domain: Domain,
    dt: TimeStep,
    config: PhysicsConfig,
) -> Motion {
    bounce(free_motion(m, dt, config), radius, domain, config)
}

/// Whether every component of a motion can be stored in a particle.
pub open spec fn representable(m: Motion) -> bool {
    fits_i64(m.x) && fits_i64(m.y) && fits_i64(m.vx) && fits_i64(m.vy)
}

/// Whether a particle can be advanced without leaving the fixed-point range:
/// its velocity after gravity, and its whole state after the step, fit.
pub open spec fn steppable(p: Particle, domain: Domain, dt: TimeStep, config: PhysicsConfig) -> bool {
    &&& fits_i64(p.velocity.y + gravity_delta(dt, config))
    &&& representable(next_motion(p.motion(), p.radius, domain, dt, config))
}

/// The particle one step later; its radius and colour are kept.
pub open spec fn advanced(p: Particle, domain: Domain, dt: TimeStep, config: PhysicsConfig) -> Particle {
    let m = next_motion(p.motion(), p.radius, domain, dt, config);
    Particle {
        position: Vec2 { x: m.x as i64, y: m.y as i64 },
        velocity: Vec2 { x: m.vx as i64, y: m.vy as i64 },
        radius: p.radius,
        color: p.color,
    }
}

/// Whether every particle of `ps` can be advanced.
pub open spec fn all_steppable(
    ps: Seq<Particle>,
    domain: Domain,
    dt: TimeStep,
    config: PhysicsConfig,
) -> bool {
    forall|i: int| 0 <= i < ps.len() ==> steppable(#[trigger] ps[i], domain, dt, config)
}

/// What one step does to a whole set of particles.
pub open spec fn step_result(
    ps: Seq<Particle>,
    domain: Domain,
    dt: TimeStep,
    config: PhysicsConfig,
) -> Result<Seq<Particle>, PhysicsError> {
    if domain.is_degenerate() {
        Err(PhysicsError::DegenerateDomain)
    } else if !all_steppable(ps, domain, dt, config) {
        Err(PhysicsError::OutOfRange)
    } else {
        Ok(ps.map_values(|p: Particle| advanced(p, domain, dt, config)))
    }
}

/// Resolves a collision on one axis: returns the new coordinate and the new
/// velocity component.
pub fn resolve_collision(position: i128, velocity: i128, half: i128, damp_permille: u32) -> (r: (
    i128,
    i128,
))
    requires
        position > i128::MIN,
        half > i128::MIN,
        fits_i64(velocity as int),
    ensures
        r.0 == clamp_position(position as int, half as int),
        r.1 == reflect_velocity(position as int, velocity as int, half as int, damp_permille as int),
{
    if position > half || -position > half {
        let pinned = if position >= 0 {
            half
        } else {
            -half
        };
        assert(-0x8000_0000_0000_0000_0000_0000i128 <= velocity * (damp_permille as i128)
            <= 0x7fff_ffff_ffff_ffff_ffff_ffffi128) by (nonlinear_arith)
            requires
                fits_i64(velocity as int),
                0 <= damp_permille <= u32::MAX,
        ;
        let scaled = div_toward_zero(velocity * (damp_permille as i128), 1000);
        (pinned, -scaled)
    } else {
        (position, velocity)
    }
}

/// Advances one particle by one step, or returns `None` when its new state
/// would not fit the fixed-point representation.
pub fn advance(p: &Particle, domain: &Domain, dt: &TimeStep, config: &PhysicsConfig) -> (r: Option<
    Particle,
>)
    requires
        dt.wf(),
    ensures
        r is Some <==> steppable(*p, *domain, *dt, *config),
        r matches Some(q) ==> q == advanced(*p, *domain, *dt, *config),
{
    let num = dt.num as i128;
    let den = dt.den as i128;
    let pull = (config.gravity as i128) * (SCALE as i128);
    assert(pull == config.gravity * 1_000_000);
    assert(-0x10_0000_0000_0000_0000_0000_0000_0000i128 <= pull * num
        <= 0x10_0000_0000_0000_0000_0000_0000_0000i128) by (nonlinear_arith)
        requires
            -0x10_0000_0000_0000_0000_0000i128 <= pull <= 0x10_0000_0000_0000_0000_0000i128,
            0 <= num <= u32::MAX,
    ;
    let dv = div_toward_zero(pull * num, den);
    let vy = (p.velocity.y as i128) + dv;
    if vy < (i64::MIN as i128) || vy > (i64::MAX as i128) {
        return None;
    }
    let vx = p.velocity.x as i128;
    assert(-0x1_0000_0000_0000_0000_0000_0000i128 <= vx * num <= 0x1_0000_0000_0000_0000_0000_0000i128
        && -0x1_0000_0000_0000_0000_0000_0000i128 <= vy * num
        <= 0x1_0000_0000_0000_0000_0000_0000i128) by (nonlinear_arith)
        requires
            fits_i64(vx as int),
            fits_i64(vy as int),
            0 <= num <= u32::MAX,
    ;
    let dx = div_toward_zero(vx * num, den);
    let dy = div_toward_zero(vy * num, den);
    let x = (p.position.x as i128) + dx;
    let y = (p.position.y as i128) + dy;
    let r = (p.radius as i128) * (SCALE as i128);
    let hw = (domain.width as i128) * (SCALE as i128) / 2 - r;
    let hh = (domain.height as i128) * (SCALE as i128) / 2 - r;
    let (nx, nvx) = resolve_collision(x, vx, hw, config.damp_permille);
    let (ny, nvy) = resolve_collision(y, vy, hh, config.damp_permille);
    proof {
        let m = next_motion(p.motion(), p.radius, *domain, *dt, *config);
        assert(m.x == nx && m.y == ny && m.vx == nvx && m.vy == nvy);
    }
    if nx < (i64::MIN as i128) || nx > (i64::MAX as i128) || ny < (i64::MIN as i128) || ny > (
    i64::MAX as i128) || nvx < (i64::MIN as i128) || nvx > (i64::MAX as i128) || nvy < (
    i64::MIN as i128) || nvy > (i64::MAX as i128) {
        return None;
    }
    Some(
        Particle {
            position: Vec2 { x: nx as i64, y: ny as i64 },
            velocity: Vec2 { x: nvx as i64, y: nvy as i64 },
            radius: p.radius,
            color: p.color,
        },
    )
}

/// Advances every particle by one step of `dt`, in place.
///
/// Fails, leaving the particles as they were, on a domain with no area, or
/// when some particle would leave the fixed-point range. A particle wider
/// than the domain is not an error: its half bound is negative and it is
/// pinned to alternate sides of the origin, step after step.
pub fn step(particles: &mut Vec<Particle>, domain: &Domain, dt: &TimeStep, config: &PhysicsConfig) -> (r:
    Result<(), PhysicsError>)
    requires
        dt.wf(),
    ensures
        match step_result(old(particles)@, *domain, *dt, *config) {
            Ok(s) => r is Ok && final(particles)@ == s,
            Err(e) => r == Err::<(), PhysicsError>(e) && final(particles)@ == old(particles)@,
        },
{
    if domain.width == 0 || domain.height == 0 {
        return Err(PhysicsError::DegenerateDomain);
    }
    let n = particles.len();
    let ghost orig = particles@;
    let mut next: Vec<Particle> = Vec::new();
    let mut i: usize = 0;
    while i < n
        invariant
            n == particles@.len(),
            particles@ == orig,
            orig == old(particles)@,
            dt.wf(),
            !domain.is_degenerate(),
            i <= n,
            next@.len() == i,
            forall|k: int| 0 <= k < i ==> steppable(#[trigger] orig[k], *domain, *dt, *config),
            forall|k: int| 0 <= k < i ==> next@[k] == advanced(orig[k], *domain, *dt, *config),
        decreases n - i,
    {
        match advance(&particles[i], domain, dt, config) {
            Some(q) => next.push(q),
            None => {
                assert(!steppable(orig[i as int], *domain, *dt, *config));
                return Err(PhysicsError::OutOfRange);
            },
        }
        i += 1;
    }
    assert(all_steppable(orig, *domain, *dt, *config));
    assert(next@ =~= old(particles)@.map_values(|p: Particle| advanced(p, *domain, *dt, *config)));
    *particles = next;
    Ok(())
}

/// The motion of a particle after `n` steps, computed exactly.
pub open spec fn motion_after(
    m: Motion,
    radius: u32,
    domain: Domain,
    dt: TimeStep,
    config: PhysicsConfig,
    n: nat,
) -> Motion
    decreases n,
{
    if n == 0 {
        m
    } else {
        next_motion(motion_after(m, radius, domain, dt, config, (n - 1) as nat), radius, domain, dt, config)
    }
}

/// A particle that can be advanced is advanced exactly as its motion model
/// says, keeping its radius and colour.
pub proof fn lemma_advanced_follows_model(p: Particle, domain: Domain, dt: TimeStep, config: PhysicsConfig)
    requires
        steppable(p, domain, dt, config),
    ensures
        advanced(p, domain, dt, config).motion() == next_motion(p.motion(), p.radius, domain, dt, config),
        advanced(p, domain, dt, config).radius == p.radius,
        advanced(p, domain, dt, config).color == p.color,
{
}

/// Gravity accumulates: as long as a particle stays clear of the top and
/// bottom walls, each step adds the same amount to its vertical velocity, so
/// after `n` steps it has gained `n` times that amount (a particle starting at
/// rest then moves at `n * gravity * dt`).
pub proof fn lemma_gravity_accumulates(
    m: Motion,
    radius: u32,
    domain: Domain,
    dt: TimeStep,
    config: PhysicsConfig,
    n: nat,
)
    requires
        forall|k: nat|
            k < n ==> !collides(
                free_motion(#[trigger] motion_after(m, radius, domain, dt, config, k), dt, config).y,
                half_bound(domain.height, radius),
            ),
    ensures
        motion_after(m, radius, domain, dt, config, n).vy == m.vy + n * gravity_delta(dt, config),
    decreases n,
{
    if n > 0 {
        let k = (n - 1) as nat;
        assert(!collides(
            free_motion(motion_after(m, radius, domain, dt, config, k), dt, config).y,
            half_bound(domain.height, radius),
        ));
        lemma_gravity_accumulates(m, radius, domain, dt, config, k);
        let prev = motion_after(m, radius, domain, dt, config, k);
        assert(motion_after(m, radius, domain, dt, config, n) == next_motion(prev, radius, domain, dt, config));
        assert(motion_after(m, radius, domain, dt, config, n).vy == prev.vy + gravity_delta(dt, config));
        assert(n * gravity_delta(dt, config) == k * gravity_delta(dt, config) + gravity_delta(dt, config))
            by (nonlinear_arith)
            requires
                n == k + 1,
        ;
    } else {
        assert(n * gravity_delta(dt, config) == 0) by (nonlinear_arith)
            requires
                n == 0,
        ;
    }
}

/// After a step, a particle whose radius fits the domain lies inside it: no
/// coordinate is farther from the origin than its half bound.
pub proof fn lemma_step_stays_inside(
    m: Motion,
    radius: u32,
    domain: Domain,
    dt: TimeStep,
    config: PhysicsConfig,
)
    requires
        2 * radius <= domain.width,
        2 * radius <= domain.height,
    ensures
        ({
            let next = next_motion(m, radius, domain, dt, config);
            &&& -half_bound(domain.width, radius) <= next.x <= half_bound(domain.width, radius)
            &&& -half_bound(domain.height, radius) <= next.y <= half_bound(domain.height, radius)
        }),
{
    assert(half_bound(domain.width, radius) >= 0);
    assert(half_bound(domain.height, radius) >= 0);
}

/// Containment for a whole set: after a successful step, every particle whose
/// radius fits the domain lies inside it.
pub proof fn lemma_step_contains_all(ps: Seq<Particle>, domain: Domain, dt: TimeStep, config: PhysicsConfig)
    requires
        forall|i: int|
            0 <= i < ps.len() ==> 2 * (#[trigger] ps[i]).radius <= domain.width && 2 * ps[i].radius
                <= domain.height,
    ensures
        step_result(ps, domain, dt, config) matches Ok(s) ==> s.len() == ps.len() && forall|i: int|
            0 <= i < s.len() ==> {
                let q = #[trigger] s[i];
                &&& -half_bound(domain.width, q.radius) <= q.position.x <= half_bound(domain.width, q.radius)
                &&& -half_bound(domain.height, q.radius) <= q.position.y <= half_bound(
                    domain.height,
                    q.radius,
                )
            },
{
    if step_result(ps, domain, dt, config) is Ok {
        let s = ps.map_values(|p: Particle| advanced(p, domain, dt, config));
        assert forall|i: int| 0 <= i < s.len() implies {
            let q = #[trigger] s[i];
            &&& -half_bound(domain.width, q.radius) <= q.position.x <= half_bound(domain.width, q.radius)
            &&& -half_bound(domain.height, q.radius) <= q.position.y <= half_bound(domain.height, q.radius)
        } by {
            assert(s[i] == advanced(ps[i], domain, dt, config));
            assert(steppable(ps[i], domain, dt, config));
            lemma_step_stays_inside(ps[i].motion(), ps[i].radius, domain, dt, config);
        }
    }
}

/// A bounce pins the particle to the wall it crossed and reverses its
/// velocity on that axis, scaled by the damp factor; with a factor of 1000
/// thousandths the speed is kept exactly.
pub proof fn lemma_bounce_reflects(
    m: Motion,
    radius: u32,
    domain: Domain,
    dt: TimeStep,
    config: PhysicsConfig,
)
    ensures
        ({
            let f = free_motion(m, dt, config);
            let next = next_motion(m, radius, domain, dt, config);
            let hw = half_bound(domain.width, radius);
            let hh = half_bound(domain.height, radius);
            &&& collides(f.x, hw) ==> next.x == (if f.x >= 0 { hw } else { -hw })
                && next.vx == -trunc_div(f.vx * config.damp_permille, 1000)
            &&& collides(f.y, hh) ==> next.y == (if f.y >= 0 { hh } else { -hh })
                && next.vy == -trunc_div(f.vy * config.damp_permille, 1000)
            &&& config.damp_permille == 1000 && collides(f.x, hw) ==> next.vx == -f.vx
            &&& config.damp_permille == 1000 && collides(f.y, hh) ==> next.vy == -f.vy
        }),
{
    let f = free_motion(m, dt, config);
    lemma_thousandths_of_thousand(f.vx);
    lemma_thousandths_of_thousand(f.vy);
}

proof fn lemma_thousandths_of_thousand(v: int)
    ensures
        trunc_div(v * 1000, 1000) == v,
{
    if v >= 0 {
        assert((v * 1000) / 1000 == v) by (nonlinear_arith);
    } else {
        assert(-(v * 1000) == (-v) * 1000);
        assert(((-v) * 1000) / 1000 == -v) by (nonlinear_arith);
    }
}

/// Whether `perm` lists every index below `n` exactly once.
pub open spec fn is_permutation(perm: Seq<int>, n: nat) -> bool {
    &&& perm.len() == n
    &&& forall|k: int| 0 <= k < n ==> 0 <= #[trigger] perm[k] < n
    &&& forall|i: int| 0 <= i < n ==> #[trigger] perm.contains(i)
}

/// The particles of `ps` in the order given by `perm`.
pub open spec fn reorder(ps: Seq<Particle>, perm: Seq<int>) -> Seq<Particle> {
    Seq::new(perm.len(), |k: int| ps[perm[k]])
}

/// The order of the particles does not matter: stepping a reordered set
/// gives the same outcome, reordered, as stepping the set itself.
pub proof fn lemma_step_order_independent(
    ps: Seq<Particle>,
    perm: Seq<int>,
    domain: Domain,
    dt: TimeStep,
    config: PhysicsConfig,
)
    requires
        is_permutation(perm, ps.len()),
    ensures
        step_result(reorder(ps, perm), domain, dt, config) == match step_result(ps, domain, dt, config) {
            Ok(s) => Ok(reorder(s, perm)),
            Err(e) => Err(e),
        },
{
    let qs = reorder(ps, perm);
    if all_steppable(ps, domain, dt, config) {
        assert forall|k: int| 0 <= k < qs.len() implies steppable(#[trigger] qs[k], domain, dt, config) by {
            assert(steppable(ps[perm[k]], domain, dt, config));
        }
        let s = ps.map_values(|p: Particle| advanced(p, domain, dt, config));
        assert(qs.map_values(|p: Particle| advanced(p, domain, dt, config)) =~= reorder(s, perm));
    } else {
        let i = choose|i: int| 0 <= i < ps.len() && !steppable(#[trigger] ps[i], domain, dt, config);
        assert(perm.contains(i));
        let k = choose|k: int| 0 <= k < perm.len() && perm[k] == i;
        assert(qs[k] == ps[i]);
        assert(!all_steppable(qs, domain, dt, config));
    }
}

/// A bounce sends the particle back into the domain: a particle that crossed
/// a positive half bound while moving outward ends on the wall with its
/// velocity on that axis pointing inward, unless damping rounds that
/// velocity to zero (`|vel * damp_permille| < 1000`).
pub proof fn lemma_bounce_turns_back(pos: int, vel: int, half: int, damp_permille: int)
    requires
        half > 0,
        damp_permille >= 0,
        collides(pos, half),
        vel * pos > 0,
        vel * damp_permille >= 1000 || vel * damp_permille <= -1000,
    ensures
        reflect_velocity(pos, vel, half, damp_permille) * clamp_position(pos, half) < 0,
{
    let w = vel * damp_permille;
    let t = trunc_div(w, 1000);
    if w >= 1000 {
        assert(t >= 1) by (nonlinear_arith)
            requires
                t == w / 1000,
                w >= 1000,
        ;
    } else {
        assert(-w >= 1000);
        assert(t <= -1) by (nonlinear_arith)
            requires
                t == -((-w) / 1000),
                -w >= 1000,
        ;
    }
    if pos >= 0 {
        assert(pos > 0);
        assert(vel > 0) by (nonlinear_arith)
            requires
                vel * pos > 0,
                pos > 0,
        ;
        assert(w >= 0) by (nonlinear_arith)
            requires
                vel > 0,
                damp_permille >= 0,
                w == vel * damp_permille,
        ;
        assert((-t) * half < 0) by (nonlinear_arith)
            requires
                t >= 1,
                half > 0,
        ;
    } else {
        assert(vel < 0) by (nonlinear_arith)
            requires
                vel * pos > 0,
                pos < 0,
        ;
        assert(w <= 0) by (nonlinear_arith)
            requires
                vel < 0,
                damp_permille >= 0,
                w == vel * damp_permille,
        ;
        assert((-t) * (-half) < 0) by (nonlinear_arith)
            requires
                t <= -1,
                half > 0,
        ;
    }
}

/// A particle of a set that steps successfully is advanced exactly as it
/// would be if stepped alone.
pub proof fn lemma_step_alone(ps: Seq<Particle>, i: int, domain: Domain, dt: TimeStep, config: PhysicsConfig)
    requires
        0 <= i < ps.len(),
        step_result(ps, domain, dt, config) is Ok,
    ensures
        step_result(seq![ps[i]], domain, dt, config) == Ok::<Seq<Particle>, PhysicsError>(
            seq![step_result(ps, domain, dt, config)->Ok_0[i]],
        ),
{
    let one = seq![ps[i]];
    assert(steppable(ps[i], domain, dt, config));
    assert(one[0] == ps[i]);
    assert(all_steppable(one, domain, dt, config));
    assert(one.map_values(|p: Particle| advanced(p, domain, dt, config)) =~= seq![
        step_result(ps, domain, dt, config)->Ok_0[i],
    ]);
}

} // verus!
