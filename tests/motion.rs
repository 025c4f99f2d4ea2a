use particles::fixed::div_toward_zero;
use particles::{
    advance, generate, resolve_collision, step, Color, Domain, Particle, PhysicsConfig,
    PhysicsError, TimeStep, Vec2, SCALE,
};

fn at(x: i64, y: i64, vx: i64, vy: i64, radius: u32) -> Particle {
    Particle {
        position: Vec2 { x, y },
        velocity: Vec2 { x: vx, y: vy },
        radius,
        color: Color { r: 1, g: 2, b: 3 },
    }
}

fn screen() -> Domain {
    Domain { width: 800, height: 600 }
}

#[test]
fn end_to_end_fall_and_bounce() {
    let config = PhysicsConfig::standard();
    let dt = TimeStep::sixtieth();
    let mut ps = vec![at(0, 0, 0, 0, 5)];
    assert_eq!(step(&mut ps, &screen(), &dt, &config), Ok(()));
    assert_eq!(ps[0].velocity.y, 5_000_000);
    assert_eq!(ps[0].position.y, 83_333);
    assert_eq!(ps[0].position.x, 0);
    let floor = 295 * SCALE;
    let mut bounced = false;
    for _ in 0..1000 {
        let before = ps[0];
        assert_eq!(step(&mut ps, &screen(), &dt, &config), Ok(()));
        assert!(ps[0].position.y <= floor);
        if ps[0].position.y == floor {
            assert!(before.position.y < floor);
            assert!(before.velocity.y > 0);
            assert!(ps[0].velocity.y < 0);
            assert_eq!(ps[0].velocity.y, -(before.velocity.y + 5_000_000));
            bounced = true;
            break;
        }
    }
    assert!(bounced);
}

#[test]
fn gravity_accumulates_while_falling_freely() {
    let config = PhysicsConfig::standard();
    let dt = TimeStep::sixtieth();
    let tall = Domain { width: 800, height: 100_000 };
    let mut ps = vec![at(0, 0, 0, 0, 5)];
    for n in 1..=50i64 {
        step(&mut ps, &tall, &dt, &config).unwrap();
        assert_eq!(ps[0].velocity.y, n * 5_000_000);
    }
}

#[test]
fn gravity_with_coarse_step() {
    let config = PhysicsConfig { gravity: 300, damp_permille: 1000 };
    let dt = TimeStep { num: 16, den: 1000 };
    let mut ps = vec![at(0, 0, 0, 0, 5)];
    step(&mut ps, &screen(), &dt, &config).unwrap();
    assert_eq!(ps[0].velocity.y, 4_800_000);
    assert_eq!(ps[0].position.y, 76_800);
}

#[test]
fn zero_gravity_moves_in_a_straight_line() {
    let config = PhysicsConfig { gravity: 0, damp_permille: 1000 };
    let dt = TimeStep { num: 1, den: 2 };
    let mut ps = vec![at(0, 0, 2 * SCALE, -4 * SCALE, 1)];
    step(&mut ps, &screen(), &dt, &config).unwrap();
    assert_eq!(ps[0].position, Vec2 { x: SCALE, y: -2 * SCALE });
    assert_eq!(ps[0].velocity, Vec2 { x: 2 * SCALE, y: -4 * SCALE });
}

#[test]
fn particles_stay_inside_the_domain() {
    let config = PhysicsConfig::standard();
    let dt = TimeStep::sixtieth();
    let mut ps = generate(500, 5).unwrap();
    for (k, p) in ps.iter_mut().enumerate() {
        p.velocity.x = (k as i64 % 7 - 3) * 150 * SCALE;
    }
    let domain = screen();
    for _ in 0..600 {
        step(&mut ps, &domain, &dt, &config).unwrap();
        for p in ps.iter() {
            let hw = 400 * SCALE - p.radius as i64 * SCALE;
            let hh = 300 * SCALE - p.radius as i64 * SCALE;
            assert!(p.position.x.abs() <= hw);
            assert!(p.position.y.abs() <= hh);
        }
    }
}

#[test]
fn elastic_bounce_keeps_speed() {
    let config = PhysicsConfig { gravity: 0, damp_permille: 1000 };
    let dt = TimeStep { num: 1, den: 1 };
    let mut ps = vec![at(390 * SCALE, 0, 20 * SCALE, 0, 5)];
    step(&mut ps, &screen(), &dt, &config).unwrap();
    assert_eq!(ps[0].position.x, 395 * SCALE);
    assert_eq!(ps[0].velocity.x, -20 * SCALE);
}

#[test]
fn damped_bounce_loses_speed() {
    let config = PhysicsConfig { gravity: 0, damp_permille: 500 };
    let dt = TimeStep { num: 1, den: 1 };
    let mut ps = vec![at(-390 * SCALE, 0, -20 * SCALE, 0, 5)];
    step(&mut ps, &screen(), &dt, &config).unwrap();
    assert_eq!(ps[0].position.x, -395 * SCALE);
    assert_eq!(ps[0].velocity.x, 10 * SCALE);
}

#[test]
fn resolve_collision_pins_and_reflects() {
    assert_eq!(resolve_collision(12, 7, 10, 1000), (10, -7));
    assert_eq!(resolve_collision(-12, -7, 10, 1000), (-10, 7));
    assert_eq!(resolve_collision(-12, -7, 10, 500), (-10, 3));
    assert_eq!(resolve_collision(10, 7, 10, 1000), (10, 7));
    assert_eq!(resolve_collision(-3, 4, 10, 0), (-3, 4));
    assert_eq!(resolve_collision(0, 4, -2, 1000), (-2, -4));
    assert_eq!(resolve_collision(12, 1, 10, 500), (10, 0));
    assert_eq!(resolve_collision(12, 2, 10, 500), (10, -1));
}

#[test]
fn radius_wider_than_domain_is_pinned_across_origin() {
    let config = PhysicsConfig { gravity: 0, damp_permille: 1000 };
    let dt = TimeStep { num: 1, den: 1 };
    let tiny = Domain { width: 4, height: 600 };
    let mut ps = vec![at(SCALE, 0, 0, 0, 5)];
    step(&mut ps, &tiny, &dt, &config).unwrap();
    assert_eq!(ps[0].position.x, -3 * SCALE);
    step(&mut ps, &tiny, &dt, &config).unwrap();
    assert_eq!(ps[0].position.x, 3 * SCALE);
}

#[test]
fn step_order_does_not_matter() {
    let config = PhysicsConfig::standard();
    let dt = TimeStep::sixtieth();
    let mut forward = generate(30, 4).unwrap();
    for (k, p) in forward.iter_mut().enumerate() {
        p.velocity.x = (k as i64 - 15) * 40 * SCALE;
        p.velocity.y = (k as i64 % 4) * 90 * SCALE;
    }
    let mut backward: Vec<Particle> = forward.iter().rev().cloned().collect();
    for _ in 0..120 {
        step(&mut forward, &screen(), &dt, &config).unwrap();
        step(&mut backward, &screen(), &dt, &config).unwrap();
    }
    let reversed: Vec<Particle> = backward.iter().rev().cloned().collect();
    assert_eq!(forward, reversed);
}

#[test]
fn step_keeps_radius_and_colour() {
    let mut ps = vec![at(0, 0, 0, 0, 9)];
    step(&mut ps, &screen(), &TimeStep::sixtieth(), &PhysicsConfig::standard()).unwrap();
    assert_eq!(ps[0].radius, 9);
    assert_eq!(ps[0].color, Color { r: 1, g: 2, b: 3 });
}

#[test]
fn degenerate_domain_is_refused() {
    let mut ps = vec![at(0, 0, 0, 0, 5)];
    let before = ps.clone();
    let flat = Domain { width: 800, height: 0 };
    assert_eq!(
        step(&mut ps, &flat, &TimeStep::sixtieth(), &PhysicsConfig::standard()),
        Err(PhysicsError::DegenerateDomain)
    );
    assert_eq!(ps, before);
    let thin = Domain { width: 0, height: 600 };
    assert_eq!(
        step(&mut ps, &thin, &TimeStep::sixtieth(), &PhysicsConfig::standard()),
        Err(PhysicsError::DegenerateDomain)
    );
}

#[test]
fn out_of_range_is_refused_and_leaves_set_unchanged() {
    let mut ps = vec![at(0, 0, 0, 0, 5), at(0, 0, 0, i64::MAX - 10, 5)];
    let before = ps.clone();
    assert_eq!(
        step(&mut ps, &screen(), &TimeStep::sixtieth(), &PhysicsConfig::standard()),
        Err(PhysicsError::OutOfRange)
    );
    assert_eq!(ps, before);
}

#[test]
fn advance_matches_step() {
    let p = at(5 * SCALE, -7 * SCALE, 60 * SCALE, -30 * SCALE, 3);
    let dt = TimeStep::sixtieth();
    let config = PhysicsConfig::standard();
    let one = advance(&p, &screen(), &dt, &config).unwrap();
    let mut ps = vec![p];
    step(&mut ps, &screen(), &dt, &config).unwrap();
    assert_eq!(ps[0], one);
    assert_eq!(one.position, Vec2 { x: 6 * SCALE, y: -7_416_666 });
    assert_eq!(one.velocity, Vec2 { x: 60 * SCALE, y: -25 * SCALE });
}

#[test]
fn advance_refuses_overflowing_velocity() {
    let p = at(0, 0, 0, i64::MAX, 5);
    assert_eq!(advance(&p, &screen(), &TimeStep::sixtieth(), &PhysicsConfig::standard()), None);
}

#[test]
fn empty_set_steps_fine() {
    let mut ps: Vec<Particle> = vec![];
    assert_eq!(step(&mut ps, &screen(), &TimeStep::sixtieth(), &PhysicsConfig::standard()), Ok(()));
    assert!(ps.is_empty());
}

#[test]
fn division_rounds_toward_zero() {
    assert_eq!(div_toward_zero(7, 2), 3);
    assert_eq!(div_toward_zero(-7, 2), -3);
    assert_eq!(div_toward_zero(-6, 3), -2);
    assert_eq!(div_toward_zero(0, 9), 0);
}

#[test]
fn particle_steps_the_same_alone_or_in_a_set() {
    let config = PhysicsConfig::standard();
    let dt = TimeStep::sixtieth();
    let mut set = generate(12, 6).unwrap();
    for (k, p) in set.iter_mut().enumerate() {
        p.velocity.x = (k as i64 - 6) * 70 * SCALE;
    }
    let originals = set.clone();
    step(&mut set, &screen(), &dt, &config).unwrap();
    for (k, p) in originals.iter().enumerate() {
        let mut alone = vec![*p];
        step(&mut alone, &screen(), &dt, &config).unwrap();
        assert_eq!(alone[0], set[k]);
    }
}
