use bouncing_pi::cube::{Cube, CubeError, MAX_ENERGY, MAX_MASS, UNITS_PER_PIXEL};

fn cube(x: i64, mass: i64, velocity: i64) -> Cube {
    Cube::new(x, mass, velocity).unwrap()
}

#[test]
fn size_is_mass_clamped() {
    assert_eq!(cube(0, 1, 0).size(), 50);
    assert_eq!(cube(0, 50, 0).size(), 50);
    assert_eq!(cube(0, 120, 0).size(), 120);
    assert_eq!(cube(0, 200, 0).size(), 200);
    assert_eq!(cube(0, 10_000, 0).size(), 200);
}

#[test]
fn new_keeps_its_arguments() {
    let c = cube(-7, 3, -11);
    assert_eq!(c.x(), -7);
    assert_eq!(c.mass(), 3);
    assert_eq!(c.velocity(), -11);
}

#[test]
fn new_rejects_non_positive_mass() {
    assert_eq!(Cube::new(0, 0, 0).err(), Some(CubeError::NonPositiveMass));
    assert_eq!(Cube::new(0, -5, 0).err(), Some(CubeError::NonPositiveMass));
}

#[test]
fn new_rejects_too_large_mass() {
    assert_eq!(Cube::new(0, MAX_MASS + 1, 0).err(), Some(CubeError::MassTooLarge));
    assert!(Cube::new(0, MAX_MASS, 0).is_ok());
}

#[test]
fn new_rejects_too_much_energy() {
    let v: i64 = 1 << 60;
    assert!(Cube::new(0, 1, v).is_ok());
    assert!(Cube::new(0, 1, -v).is_ok());
    assert_eq!(Cube::new(0, 1, v + 1).err(), Some(CubeError::TooFast));
    assert_eq!(Cube::new(0, 4, v).err(), Some(CubeError::TooFast));
    assert_eq!(Cube::new(0, 1, i64::MIN).err(), Some(CubeError::TooFast));
    assert_eq!(MAX_ENERGY, 1i128 << 120);
}

#[test]
fn next_x_projects_without_moving() {
    let c = cube(10, 1, -3);
    assert_eq!(c.next_x(4), -2);
    assert_eq!(c.next_x(0), 10);
    assert_eq!(c.x(), 10);
}

#[test]
fn next_x_saturates() {
    let c = cube(i64::MAX - 1, 1, 1000);
    assert_eq!(c.next_x(1000), i64::MAX);
    let d = cube(i64::MIN + 1, 1, -1000);
    assert_eq!(d.next_x(1000), i64::MIN);
}

#[test]
fn update_moves_by_delta_times_velocity() {
    let mut c = cube(100, 1, 7);
    c.update(10, 0);
    assert_eq!(c.x(), 170);
    assert_eq!(c.velocity(), 7);
}

#[test]
fn update_stops_at_the_floor() {
    let mut c = cube(100, 1, -7);
    c.update(10, 50);
    assert_eq!(c.x(), 50);
    let mut d = cube(100, 1, -7);
    d.update(10, 30);
    assert_eq!(d.x(), 30);
    let mut e = cube(100, 1, -7);
    e.update(10, 31);
    assert_eq!(e.x(), 31);
}

#[test]
fn wall_reverses_a_leftward_block() {
    let mut c = cube(105, 1, -10);
    assert!(c.collide_wall(1, 100));
    assert_eq!(c.velocity(), 10);
    assert_eq!(c.x(), 105);
}

#[test]
fn wall_ignores_a_block_not_yet_there() {
    let mut c = cube(120, 1, -10);
    assert!(!c.collide_wall(1, 100));
    assert_eq!(c.velocity(), -10);
}

#[test]
fn wall_never_reverses_a_rightward_block() {
    let mut c = cube(50, 1, 10);
    assert!(!c.collide_wall(1, 100));
    assert_eq!(c.velocity(), 10);
    let mut d = cube(50, 1, 0);
    assert!(!d.collide_wall(1, 100));
    assert_eq!(d.velocity(), 0);
}

#[test]
fn equal_masses_swap_velocities() {
    let mut l = cube(0, 5, 123_456);
    let mut r = cube(10 * UNITS_PER_PIXEL, 5, -987_654);
    assert!(l.collide_cube_on_right(&mut r, 1_000_000_000));
    assert_eq!(l.velocity(), -987_654);
    assert_eq!(r.velocity(), 123_456);
}

#[test]
fn separated_blocks_do_not_collide() {
    let mut l = cube(0, 1, 0);
    let mut r = cube(60 * UNITS_PER_PIXEL, 1, -1000);
    assert!(!l.collide_cube_on_right(&mut r, 1000));
    assert_eq!(l.velocity(), 0);
    assert_eq!(r.velocity(), -1000);
}

#[test]
fn contact_starts_when_the_far_edge_reaches() {
    let gap = 50 * UNITS_PER_PIXEL;
    let mut l = cube(0, 1, 0);
    let mut r = cube(gap + 1000, 1, -1);
    assert!(!l.collide_cube_on_right(&mut r, 999));
    assert!(l.collide_cube_on_right(&mut r, 1000));
}

#[test]
fn light_and_heavy_collision_values() {
    let mut l = cube(0, 1, 0);
    let mut r = cube(50 * UNITS_PER_PIXEL, 100, -100_000_000_000);
    assert!(l.collide_cube_on_right(&mut r, 1000));
    assert_eq!(l.velocity(), -198_019_801_980);
    assert_eq!(r.velocity(), -98_019_801_980);
}

fn momentum(l: &Cube, r: &Cube) -> i128 {
    l.mass() as i128 * l.velocity() as i128 + r.mass() as i128 * r.velocity() as i128
}

fn energy(l: &Cube, r: &Cube) -> i128 {
    let a = l.mass() as i128 * l.velocity() as i128 * l.velocity() as i128;
    let b = r.mass() as i128 * r.velocity() as i128 * r.velocity() as i128;
    a + b
}

#[test]
fn collision_keeps_momentum_and_energy() {
    let cases: [(i64, i64, i64, i64); 4] = [
        (1, 100, 0, -100_000_000_000),
        (3, 7, 40_000_000_000, -9_000_000_000),
        (1_000_000, 1, 50_000_000_000, -70_000_000_000),
        (42, 42, 30_000_000_000, -30_000_000_000),
    ];
    for (m1, m2, v1, v2) in cases {
        let mut l = cube(0, m1, v1);
        let mut r = cube(1, m2, v2);
        let p = momentum(&l, &r);
        let scale = (m1 as i128 * v1 as i128).abs() + (m2 as i128 * v2 as i128).abs();
        let e = energy(&l, &r);
        assert!(l.collide_cube_on_right(&mut r, 1));
        let dp = momentum(&l, &r) - p;
        assert!(dp.abs() < (m1 + m2) as i128);
        assert!(dp.abs() * 1_000_000_000 <= scale);
        let e2 = energy(&l, &r);
        assert!(e2 <= e);
        assert!((e - e2) * 1_000_000_000 <= e);
    }
}

#[test]
fn second_collision_undoes_the_first() {
    let mut l = cube(0, 1, 0);
    let mut r = cube(1, 100, -100_000_000_000);
    assert!(l.collide_cube_on_right(&mut r, 1));
    assert!(l.collide_cube_on_right(&mut r, 1));
    assert!(l.velocity().abs() <= 3);
    assert!((r.velocity() + 100_000_000_000).abs() <= 3);
    let scale: i128 = 100_000_000_000;
    assert!(l.velocity().abs() as i128 * 1_000_000_000 <= scale);
}
