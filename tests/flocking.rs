use boids::boid::{population_ok, spawn_radius, Boid, HUE_LIMIT, RADIUS_DRAWS};
use boids::motion::{clamp_speed, rescale};
use boids::rules::separation;
use boids::settings::Settings;
use boids::simulation::{advance, spawn_population, wrap_around, wrap_coordinate, Msg, HEIGHT, WIDTH};
use boids::vector::{floor_div, floor_sqrt, weighted_mean, Vector2D};
use boids::view::{visible_boids, VisibleBoid};

fn settings() -> Settings {
    Settings {
        min_distance: 10,
        max_speed: 5,
        visible_range: 50,
        cohesion_factor: 100,
        alignment_factor: 500,
        separation_factor: 1000,
    }
}

fn boid(x: i64, y: i64, vx: i64, vy: i64, radius: u64) -> Boid {
    Boid { position: Vector2D::new(x, y), velocity: Vector2D::new(vx, vy), radius, hue: 0 }
}

#[test]
fn weighted_mean_of_nothing_is_absent() {
    assert_eq!(weighted_mean(&vec![]), None);
}

#[test]
fn weighted_mean_of_zero_weights_is_absent() {
    let items = vec![(Vector2D::new(3, 4), 0), (Vector2D::new(-7, 2), 0)];
    assert_eq!(weighted_mean(&items), None);
}

#[test]
fn weighted_mean_of_one_item_is_that_item() {
    let v = Vector2D::new(-12, 37);
    assert_eq!(weighted_mean(&vec![(v, 1)]), Some(v));
}

#[test]
fn weighted_mean_of_equal_weights_is_midpoint() {
    let items = vec![(Vector2D::new(0, 0), 3), (Vector2D::new(10, 4), 3)];
    assert_eq!(weighted_mean(&items), Some(Vector2D::new(5, 2)));
}

#[test]
fn weighted_mean_rounds_down() {
    let items = vec![(Vector2D::new(-3, 3), 1), (Vector2D::new(0, 0), 1)];
    assert_eq!(weighted_mean(&items), Some(Vector2D::new(-2, 1)));
}

#[test]
fn weighted_mean_weighs_items() {
    let items = vec![(Vector2D::new(0, 0), 1), (Vector2D::new(40, 8), 3)];
    assert_eq!(weighted_mean(&items), Some(Vector2D::new(30, 6)));
}

#[test]
fn floor_div_rounds_toward_negative_infinity() {
    assert_eq!(floor_div(7, 2), 3);
    assert_eq!(floor_div(-7, 2), -4);
    assert_eq!(floor_div(-8, 2), -4);
}

#[test]
fn floor_sqrt_values() {
    assert_eq!(floor_sqrt(0), 0);
    assert_eq!(floor_sqrt(15), 3);
    assert_eq!(floor_sqrt(16), 4);
    assert_eq!(floor_sqrt(u128::MAX), u64::MAX as u128);
}

#[test]
fn magnitude_of_vectors() {
    assert_eq!(Vector2D::new(3, 4).magnitude(), 5);
    assert_eq!(Vector2D::new(-1, 1).magnitude(), 1);
    assert_eq!(Vector2D::new(0, 0).magnitude(), 0);
    assert_eq!(Vector2D::new(3, -4).magnitude_squared(), 25);
}

#[test]
fn vector_arithmetic() {
    let a = Vector2D::new(1, -2);
    let b = Vector2D::new(4, 6);
    assert_eq!(a.add(b), Vector2D::new(5, 4));
    assert_eq!(a.sub(b), Vector2D::new(-3, -8));
    assert_eq!(b.scale(-3), Vector2D::new(-12, -18));
}

#[test]
fn view_excludes_subject_and_far_boids_and_keeps_boundary() {
    let boids = vec![
        boid(100, 100, 0, 0, 1),
        boid(103, 104, 0, 0, 1),
        boid(106, 108, 0, 0, 1),
        boid(100, 95, 0, 0, 1),
    ];
    let view = visible_boids(&boids, 0, 5);
    assert_eq!(
        view,
        vec![
            VisibleBoid { index: 1, offset: Vector2D::new(3, 4), distance: 5 },
            VisibleBoid { index: 3, offset: Vector2D::new(0, -5), distance: 5 },
        ]
    );
    assert!(view.iter().all(|v| v.index != 0));
}

#[test]
fn view_of_lone_boid_is_empty() {
    let boids = vec![boid(10, 10, 1, 1, 2)];
    assert!(visible_boids(&boids, 0, 1000).is_empty());
}

#[test]
fn cohesion_pulls_toward_weighted_centre() {
    let boids = vec![boid(0, 0, 0, 0, 1), boid(10, 0, 0, 0, 2), boid(0, 20, 0, 0, 1)];
    let view = visible_boids(&boids, 0, 50);
    // weights 4 and 1: centre (8, 4); a tenth of the way there, rounded down
    assert_eq!(boids[0].coherence(&boids, &view, 100), Vector2D::new(0, 0));
    assert_eq!(boids[0].coherence(&boids, &view, 1000), Vector2D::new(8, 4));
    assert_eq!(boids[0].coherence(&boids, &view, 500), Vector2D::new(4, 2));
}

#[test]
fn alignment_pulls_toward_mean_velocity() {
    let boids = vec![boid(0, 0, 0, 0, 1), boid(5, 0, 10, 0, 1), boid(0, 5, 10, 4, 1)];
    let view = visible_boids(&boids, 0, 50);
    assert_eq!(boids[0].alignment(&boids, &view, 500), Vector2D::new(5, 1));
}

#[test]
fn rules_without_neighbours_are_zero() {
    let boids = vec![boid(0, 0, 3, 1, 1), boid(500, 500, 0, 0, 1)];
    let view = visible_boids(&boids, 0, 50);
    assert!(view.is_empty());
    assert_eq!(boids[0].coherence(&boids, &view, 1000), Vector2D::new(0, 0));
    assert_eq!(boids[0].alignment(&boids, &view, 1000), Vector2D::new(0, 0));
    assert_eq!(separation(&view, 10, 1000), Vector2D::new(0, 0));
}

#[test]
fn separation_pushes_away_from_close_neighbour() {
    let view = vec![VisibleBoid { index: 1, offset: Vector2D::new(3, 0), distance: 3 }];
    assert_eq!(separation(&view, 10, 1000), Vector2D::new(-21, 0));
    let view = vec![VisibleBoid { index: 1, offset: Vector2D::new(-3, 4), distance: 5 }];
    assert_eq!(separation(&view, 10, 1000), Vector2D::new(15, -20));
}

#[test]
fn separation_ignores_neighbours_at_min_distance_or_beyond() {
    let view = vec![
        VisibleBoid { index: 1, offset: Vector2D::new(6, 8), distance: 10 },
        VisibleBoid { index: 2, offset: Vector2D::new(0, 30), distance: 30 },
    ];
    assert_eq!(separation(&view, 10, 1000), Vector2D::new(0, 0));
}

#[test]
fn clamp_caps_speed() {
    assert_eq!(clamp_speed(30, 40, 10), Vector2D::new(6, 8));
    assert_eq!(clamp_speed(-30, 40, 10), Vector2D::new(-6, 8));
    assert_eq!(clamp_speed(3, 4, 10), Vector2D::new(3, 4));
    let v = clamp_speed(1000, 999, 7);
    assert!(v.magnitude_squared() <= 49);
}

#[test]
fn rescale_reaches_length() {
    assert_eq!(rescale(3, 4, 10), Vector2D::new(6, 8));
    assert_eq!(rescale(0, -1, 5), Vector2D::new(0, -5));
}

#[test]
fn advance_keeps_every_speed_under_the_limit() {
    let boids = vec![
        boid(0, 0, 5, 0, 2),
        boid(4, 3, -5, 0, 5),
        boid(8, 0, 0, 5, 1),
        boid(30, 30, 3, 4, 3),
    ];
    let s = settings();
    let next = advance(&boids, &s);
    assert_eq!(next.len(), boids.len());
    for (old, new) in boids.iter().zip(next.iter()) {
        assert!(new.velocity.magnitude_squared() <= 25);
        assert_eq!(new.position, old.position.add(new.velocity));
        assert_eq!(new.radius, old.radius);
        assert_eq!(new.hue, old.hue);
    }
}

#[test]
fn two_boids_at_one_place_do_not_break_separation() {
    let boids = vec![boid(200, 200, 0, 0, 3), boid(200, 200, 0, 0, 3)];
    let next = advance(&boids, &settings());
    assert_eq!(next, boids);
}

#[test]
fn lone_boid_keeps_course() {
    let boids = vec![Boid { position: Vector2D::new(40, 60), velocity: Vector2D::new(2, -1), radius: 3, hue: 77 }];
    let next = advance(&boids, &settings());
    assert_eq!(
        next,
        vec![Boid { position: Vector2D::new(42, 59), velocity: Vector2D::new(2, -1), radius: 3, hue: 77 }]
    );
}

#[test]
fn step_matches_advance() {
    let boids = vec![boid(0, 0, 1, 0, 2), boid(6, 8, 0, 1, 2)];
    let s = settings();
    let next = advance(&boids, &s);
    assert_eq!(Boid::step(&boids, 0, &s), next[0]);
    assert_eq!(Boid::step(&boids, 1, &s), next[1]);
}

#[test]
fn spawn_radius_is_skewed_between_bounds() {
    assert_eq!(spawn_radius(20, 0), 1);
    assert_eq!(spawn_radius(20, RADIUS_DRAWS - 1), 9);
    assert_eq!(spawn_radius(120, 500), 10 + 125_000_000 * 50 / 1_000_000_000);
    assert_eq!(spawn_radius(1, 999), 1);
}

#[test]
fn new_random_draws_inside_the_world() {
    let s = settings();
    for _ in 0..200 {
        let b = Boid::new_random(&s);
        assert!(0 <= b.position.x && b.position.x < WIDTH);
        assert!(0 <= b.position.y && b.position.y < HEIGHT);
        assert!(b.velocity.magnitude_squared() <= 25);
        assert!(b.velocity.magnitude_squared() > 0);
        assert!(1 <= b.radius && b.radius <= 5);
        assert!(b.hue < HUE_LIMIT);
    }
}

#[test]
fn spawn_population_has_count() {
    let boids = spawn_population(&settings(), 17);
    assert_eq!(boids.len(), 17);
    assert_eq!(Msg::Tick, Msg::Tick);
}

#[test]
fn wrap_brings_positions_into_the_world() {
    assert_eq!(wrap_coordinate(-1, WIDTH), WIDTH - 1);
    assert_eq!(wrap_coordinate(WIDTH, WIDTH), 0);
    assert_eq!(wrap_coordinate(2 * HEIGHT + 7, HEIGHT), 7);
    let boids = vec![boid(-3, 1005, 2, 2, 4)];
    assert_eq!(wrap_around(&boids), vec![boid(WIDTH - 3, 5, 2, 2, 4)]);
}

#[test]
fn validity_checks() {
    assert!(settings().is_valid());
    let mut s = settings();
    s.max_speed = 0;
    assert!(!s.is_valid());
    let mut s = settings();
    s.cohesion_factor = 1001;
    assert!(!s.is_valid());
    assert!(population_ok(&vec![boid(1, 2, 3, 4, 5)]));
    assert!(!population_ok(&vec![boid(1, 2, 3, 4, 0)]));
    assert!(!boid(i64::MAX, 0, 0, 0, 1).is_wf());
}
