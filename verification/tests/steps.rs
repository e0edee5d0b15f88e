use little_conflict::boundary::bounce;
use little_conflict::collision::resolve_pair;
use little_conflict::components::{AsteroidBundle, Orientation, Stats, Velocity};
use little_conflict::driver::tick;
use little_conflict::fixed::{Fixed, ONE};
use little_conflict::motion::{advance, turn};
use little_conflict::systems::{
    collide_asteroids, collide_asteroids_with_boundaries, rotate_asteroids, stats,
    translate_asteroids,
};
use little_conflict::vector::Vec2;
use rand::rngs::StdRng;
use rand::SeedableRng;

fn disc(x: i64, y: i64, radius: i64, vx: i64, vy: i64) -> AsteroidBundle {
    AsteroidBundle::new(
        Vec2::new(Fixed::from_raw(x), Fixed::from_raw(y)),
        Fixed::from_raw(radius),
        Orientation {
            u: Fixed::from_raw(0),
            v: Fixed::from_raw(0),
            w: Fixed::from_raw(0),
            turns: 0,
        },
        Velocity(Vec2::new(Fixed::from_raw(vx), Fixed::from_raw(vy))),
    )
    .unwrap()
}

fn crowd(seed: u64, count: usize) -> Vec<AsteroidBundle> {
    let mut rng = StdRng::seed_from_u64(seed);
    (0..count).map(|_| AsteroidBundle::with_rng(&mut rng)).collect()
}

fn labels() -> Vec<String> {
    vec![
        "FPS (raw): ".to_string(),
        "".to_string(),
        "\nFPS (SMA): ".to_string(),
        "".to_string(),
        "\nFPS (EMA): ".to_string(),
        "".to_string(),
    ]
}

#[test]
fn every_step_on_no_bodies() {
    let mut bodies: Vec<AsteroidBundle> = Vec::new();
    collide_asteroids_with_boundaries(&mut bodies);
    collide_asteroids(&mut bodies);
    translate_asteroids(&mut bodies, Fixed::from_raw(ONE));
    rotate_asteroids(&mut bodies);
    tick(&mut bodies, Fixed::from_raw(ONE), true);
    assert!(bodies.is_empty());
}

#[test]
fn every_step_on_one_body() {
    let b = disc(990_000_000, 0, 50_000_000, 100_000_000, 0);
    let mut bodies = vec![b];
    collide_asteroids(&mut bodies);
    assert_eq!(bodies, vec![b]);
    collide_asteroids_with_boundaries(&mut bodies);
    assert_eq!(bodies, vec![bounce(&b)]);
    translate_asteroids(&mut bodies, Fixed::from_raw(ONE));
    assert_eq!(bodies, vec![advance(&bounce(&b), Fixed::from_raw(ONE))]);
    rotate_asteroids(&mut bodies);
    assert_eq!(bodies, vec![turn(&advance(&bounce(&b), Fixed::from_raw(ONE)))]);
}

#[test]
fn boundaries_bounce_every_body() {
    let mut bodies = vec![
        disc(0, 0, 50_000_000, 1, 1),
        disc(ONE, 0, 50_000_000, 2, 2),
        disc(0, -ONE, 20_000_000, 3, -3),
        disc(-ONE, ONE, 30_000_000, -4, 4),
    ];
    let before = bodies.clone();
    collide_asteroids_with_boundaries(&mut bodies);
    assert_eq!(bodies.len(), 4);
    for (after, start) in bodies.iter().zip(before.iter()) {
        assert_eq!(*after, bounce(start));
    }
    assert_eq!(bodies[0], before[0]);
    assert_eq!(bodies[1].position().x.raw, 950_000_000);
    assert_eq!(bodies[1].velocity().0.x.raw, -2);
    assert_eq!(bodies[2].position().y.raw, -980_000_000);
    assert_eq!(bodies[2].velocity().0.y.raw, 3);
    assert_eq!(bodies[3].position(), Vec2::new(Fixed::from_raw(-970_000_000), Fixed::from_raw(970_000_000)));
    assert_eq!(bodies[3].velocity().0, Vec2::new(Fixed::from_raw(4), Fixed::from_raw(-4)));
}

#[test]
fn boundaries_contain_a_crowd() {
    let mut bodies = crowd(3, 100);
    for round in 0..50 {
        translate_asteroids(&mut bodies, Fixed::from_raw(100_000_000 * (round % 7)));
        collide_asteroids(&mut bodies);
        collide_asteroids_with_boundaries(&mut bodies);
        for b in &bodies {
            let limit = ONE - b.radius().raw;
            assert!(-limit <= b.position().x.raw && b.position().x.raw <= limit);
            assert!(-limit <= b.position().y.raw && b.position().y.raw <= limit);
        }
    }
}

#[test]
fn collisions_of_two_bodies() {
    let a = disc(-ONE, 0, 2 * ONE, ONE, 0);
    let b = disc(ONE, 0, ONE, -ONE, 0);
    let mut bodies = vec![a, b];
    collide_asteroids(&mut bodies);
    let (c, d) = resolve_pair(&a, &b);
    assert_eq!(bodies, vec![c, d]);
    assert_eq!(bodies[0].velocity().0, Vec2::new(Fixed::from_raw(-250_000_000), Fixed::from_raw(0)));
    assert_eq!(bodies[1].velocity().0, Vec2::new(Fixed::from_raw(4 * ONE), Fixed::from_raw(0)));
}

#[test]
fn collisions_visit_the_pairs_in_order() {
    // Three bodies in a row, each overlapping the next; the first and the last overlap only
    // once the first pair has been resolved.
    let a = disc(0, 0, 50_000_000, 1_000, 0);
    let b = disc(90_000_000, 0, 50_000_000, 2_000, 0);
    let c = disc(181_000_000, 0, 50_000_000, 3_000, 0);
    let mut bodies = vec![a, b, c];
    collide_asteroids(&mut bodies);

    let (a1, b1) = resolve_pair(&a, &b);
    let (a2, c1) = resolve_pair(&a1, &c);
    let (b2, c2) = resolve_pair(&b1, &c1);
    assert_eq!(bodies, vec![a2, b2, c2]);

    // The later pairs met the bodies as the earlier ones left them.
    assert_eq!(a1.position().x.raw, -5_000_000);
    assert_eq!(b1.position().x.raw, 95_000_000);
    assert_eq!(a2, a1);
    assert_eq!(b2.position().x.raw, 88_000_000);
    assert_eq!(c2.position().x.raw, 188_000_000);
    assert_eq!(bodies[0].velocity().0.x.raw, 2_000);
    assert_eq!(bodies[1].velocity().0.x.raw, 3_000);
    assert_eq!(bodies[2].velocity().0.x.raw, 1_000);
}

#[test]
fn collisions_visit_each_pair_once() {
    // Four bodies far apart but for the given pair: only that pair changes, and as one
    // resolution of it does.
    let spots: [(i64, i64); 4] =
        [(-500_000_000, 0), (0, 500_000_000), (500_000_000, 0), (0, -500_000_000)];
    for i in 0..4 {
        for j in (i + 1)..4 {
            let mut bodies: Vec<AsteroidBundle> = spots
                .iter()
                .enumerate()
                .map(|(k, &(x, y))| disc(x, y, 20_000_000, k as i64, -(k as i64)))
                .collect();
            bodies[j] = disc(spots[i].0 + 10_000_000, spots[i].1, 20_000_000, j as i64, 7);
            let before = bodies.clone();
            collide_asteroids(&mut bodies);
            let (ri, rj) = resolve_pair(&before[i], &before[j]);
            assert_ne!(ri, before[i]);
            for k in 0..4 {
                if k == i {
                    assert_eq!(bodies[k], ri);
                } else if k == j {
                    assert_eq!(bodies[k], rj);
                } else {
                    assert_eq!(bodies[k], before[k]);
                }
            }
        }
    }
}

#[test]
fn collisions_leave_bodies_at_the_same_place() {
    let a = disc(0, 0, 50_000_000, 100_000_000, 0);
    let b = disc(0, 0, 50_000_000, -100_000_000, 0);
    let mut bodies = vec![a, b];
    collide_asteroids(&mut bodies);
    assert_eq!(bodies, vec![a, b]);
}

#[test]
fn bodies_at_the_same_place_part_with_time() {
    let mut bodies = vec![
        disc(0, 0, 50_000_000, 100_000_000, 0),
        disc(0, 0, 50_000_000, -100_000_000, 0),
    ];
    for _ in 0..600 {
        tick(&mut bodies, Fixed::from_raw(16_666_667), true);
        assert_eq!(bodies.len(), 2);
        for b in &bodies {
            assert_eq!(b.radius().raw, 50_000_000);
            assert!(b.position().x.raw.abs() <= 2 * ONE);
            assert!(b.position().y.raw.abs() <= 2 * ONE);
            assert!(b.velocity().0.x.raw.abs() == 100_000_000);
            assert_eq!(b.velocity().0.y.raw, 0);
        }
    }
    assert_ne!(bodies[0].position(), bodies[1].position());
}

#[test]
fn translate_moves_every_body() {
    let mut bodies = vec![
        disc(100_000_000, 200_000_000, 50_000_000, 500_000_000, -250_000_000),
        disc(0, 0, 20_000_000, -ONE, ONE),
        disc(5, 5, 20_000_000, 0, 0),
    ];
    let before = bodies.clone();
    translate_asteroids(&mut bodies, Fixed::from_raw(16_000_000));
    assert_eq!(bodies[0].position(), Vec2::new(Fixed::from_raw(108_000_000), Fixed::from_raw(196_000_000)));
    assert_eq!(bodies[1].position(), Vec2::new(Fixed::from_raw(-16_000_000), Fixed::from_raw(16_000_000)));
    assert_eq!(bodies[2], before[2]);
    for (after, start) in bodies.iter().zip(before.iter()) {
        assert_eq!(after.velocity(), start.velocity());
        assert_eq!(after.radius(), start.radius());
    }
}

#[test]
fn translate_by_no_time_moves_nothing() {
    let mut bodies = crowd(11, 30);
    let before = bodies.clone();
    translate_asteroids(&mut bodies, Fixed::from_raw(0));
    assert_eq!(bodies, before);
}

#[test]
fn rotate_turns_every_body_and_nothing_else() {
    let mut bodies = crowd(5, 10);
    let before = bodies.clone();
    rotate_asteroids(&mut bodies);
    rotate_asteroids(&mut bodies);
    rotate_asteroids(&mut bodies);
    for (after, start) in bodies.iter().zip(before.iter()) {
        assert_eq!(after.orientation().turns, 3);
        assert_eq!(after.orientation().u, start.orientation().u);
        assert_eq!(after.orientation().v, start.orientation().v);
        assert_eq!(after.orientation().w, start.orientation().w);
        assert_eq!(after.position(), start.position());
        assert_eq!(after.velocity(), start.velocity());
        assert_eq!(after.radius(), start.radius());
    }
}

#[test]
fn tick_runs_the_steps_in_order() {
    let mut bodies = crowd(9, 40);
    let mut by_hand = bodies.clone();
    let dt = Fixed::from_raw(250_000_000);
    tick(&mut bodies, dt, true);
    collide_asteroids_with_boundaries(&mut by_hand);
    collide_asteroids(&mut by_hand);
    translate_asteroids(&mut by_hand, dt);
    rotate_asteroids(&mut by_hand);
    assert_eq!(bodies, by_hand);
}

#[test]
fn tick_turns_only_when_a_step_is_due() {
    let mut bodies = crowd(9, 5);
    tick(&mut bodies, Fixed::from_raw(16_000_000), false);
    assert!(bodies.iter().all(|b| b.orientation().turns == 0));
    tick(&mut bodies, Fixed::from_raw(16_000_000), true);
    assert!(bodies.iter().all(|b| b.orientation().turns == 1));
}

#[test]
fn tick_moves_a_free_body_by_its_velocity() {
    let mut bodies = vec![
        disc(-500_000_000, 0, 50_000_000, 250_000_000, 125_000_000),
        disc(500_000_000, 0, 50_000_000, -250_000_000, 0),
    ];
    tick(&mut bodies, Fixed::from_raw(100_000_000), false);
    assert_eq!(bodies[0].position(), Vec2::new(Fixed::from_raw(-475_000_000), Fixed::from_raw(12_500_000)));
    assert_eq!(bodies[1].position(), Vec2::new(Fixed::from_raw(475_000_000), Fixed::from_raw(0)));
}

#[test]
fn the_population_is_constant() {
    let mut bodies = crowd(1, 100);
    let radii: Vec<Fixed> = bodies.iter().map(|b| b.radius()).collect();
    for frame in 0..300 {
        tick(&mut bodies, Fixed::from_raw(16_666_667), frame % 2 == 0);
        assert_eq!(bodies.len(), 100);
    }
    let after: Vec<Fixed> = bodies.iter().map(|b| b.radius()).collect();
    assert_eq!(after, radii);
    assert!(bodies.iter().all(|b| b.orientation().turns == 150));
}

#[test]
fn stats_write_every_figure() {
    let mut sections = labels();
    let figures = Stats {
        raw: Some(Fixed::from_raw(59_943_211_000)),
        sma: Some(Fixed::from_raw(60_004_999_999)),
        ema: Some(Fixed::from_raw(60_125_000_000)),
    };
    stats(&figures, &mut sections);
    assert_eq!(
        sections,
        vec!["FPS (raw): ", "59.94", "\nFPS (SMA): ", "60.00", "\nFPS (EMA): ", "60.12"]
    );
}

#[test]
fn stats_keep_what_a_missing_figure_showed() {
    let mut sections = labels();
    stats(
        &Stats {
            raw: Some(Fixed::from_raw(30 * ONE)),
            sma: Some(Fixed::from_raw(31 * ONE)),
            ema: Some(Fixed::from_raw(32 * ONE)),
        },
        &mut sections,
    );
    stats(&Stats { raw: Some(Fixed::from_raw(45_500_000_000)), sma: None, ema: None }, &mut sections);
    assert_eq!(
        sections,
        vec!["FPS (raw): ", "45.50", "\nFPS (SMA): ", "31.00", "\nFPS (EMA): ", "32.00"]
    );
    stats(&Stats::default(), &mut sections);
    assert_eq!(
        sections,
        vec!["FPS (raw): ", "45.50", "\nFPS (SMA): ", "31.00", "\nFPS (EMA): ", "32.00"]
    );
}

#[test]
fn stats_need_only_the_sections_they_write() {
    let mut none: Vec<String> = Vec::new();
    stats(&Stats::default(), &mut none);
    assert!(none.is_empty());
    let mut two = vec!["a".to_string(), "b".to_string()];
    stats(&Stats { raw: Some(Fixed::from_raw(ONE)), sma: None, ema: None }, &mut two);
    assert_eq!(two, vec!["a", "1.00"]);
    let mut seven: Vec<String> = (0..7).map(|k| format!("{}", k)).collect();
    stats(
        &Stats { raw: None, sma: Some(Fixed::from_raw(-ONE)), ema: Some(Fixed::from_raw(5)) },
        &mut seven,
    );
    assert_eq!(seven, vec!["0", "1", "2", "-1.00", "4", "0.00", "6"]);
}
