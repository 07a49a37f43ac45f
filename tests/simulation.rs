use bouncing_pi::cube::Cube;
use bouncing_pi::simulation::{
    Simulation, SimulationError, START_VELOCITY_B, SUBSTEP_DELTA, WALL_X,
};

fn settled(s: &Simulation) -> bool {
    let va = s.a().velocity();
    let vb = s.b().velocity();
    va >= 0 && vb >= va
}

fn run_until_settled(s: &mut Simulation) {
    let mut frames: u64 = 0;
    while !settled(s) {
        s.step(SUBSTEP_DELTA);
        frames += 1;
        assert!(frames < 5_000_000);
    }
    let count = s.bounce_count();
    for _ in 0..10_000 {
        s.step(SUBSTEP_DELTA);
    }
    assert_eq!(s.bounce_count(), count);
}

#[test]
fn equal_masses_give_three() {
    let mut s = Simulation::for_digits(0).unwrap();
    assert_eq!(s.a().mass(), 1);
    assert_eq!(s.b().mass(), 1);
    assert_eq!(s.a().velocity(), 0);
    assert_eq!(s.b().velocity(), START_VELOCITY_B);
    while s.bounce_count() == 0 {
        s.step(SUBSTEP_DELTA);
    }
    assert_eq!(s.bounce_count(), 1);
    assert_eq!(s.a().velocity(), START_VELOCITY_B);
    assert_eq!(s.b().velocity(), 0);
    while s.bounce_count() == 1 {
        s.step(SUBSTEP_DELTA);
    }
    assert_eq!(s.bounce_count(), 2);
    assert_eq!(s.a().velocity(), -START_VELOCITY_B);
    run_until_settled(&mut s);
    assert_eq!(s.bounce_count(), 3);
    assert_eq!(s.pi_estimate(), (3, 1));
}

#[test]
fn hundredfold_mass_gives_thirty_one() {
    let mut s = Simulation::for_digits(1).unwrap();
    assert_eq!(s.b().mass(), 100);
    assert_eq!(s.b().size(), 100);
    run_until_settled(&mut s);
    assert_eq!(s.bounce_count(), 31);
    assert_eq!(s.pi_estimate(), (31, 10));
}

#[test]
fn ten_thousandfold_mass_gives_three_hundred_fourteen() {
    let mut s = Simulation::for_digits(2).unwrap();
    run_until_settled(&mut s);
    assert_eq!(s.bounce_count(), 314);
    assert_eq!(s.pi_estimate(), (314, 100));
}

#[test]
fn estimate_read_twice_agrees() {
    let mut s = Simulation::for_digits(1).unwrap();
    for _ in 0..3000 {
        s.step(SUBSTEP_DELTA);
    }
    let first = s.pi_estimate();
    let second = s.pi_estimate();
    assert_eq!(first, second);
    assert_eq!(first.1, 10);
}

#[test]
fn bounce_count_never_decreases() {
    let mut s = Simulation::for_digits(1).unwrap();
    let mut last = s.bounce_count();
    for _ in 0..20_000 {
        let bounced = s.step(SUBSTEP_DELTA);
        let now = s.bounce_count();
        assert!(now >= last);
        assert_eq!(bounced, now > last);
        last = now;
    }
}

#[test]
fn blocks_stay_on_their_floors() {
    let mut s = Simulation::for_digits(1).unwrap();
    for _ in 0..20_000 {
        s.step(SUBSTEP_DELTA);
        assert!(s.a().x() >= s.wall_x());
        assert!(s.b().x() >= s.wall_x() + s.a().size() * bouncing_pi::cube::UNITS_PER_PIXEL);
    }
}

#[test]
fn substep_count_follows_digits() {
    assert_eq!(Simulation::for_digits(0).unwrap().substeps(), 1);
    assert_eq!(Simulation::for_digits(2).unwrap().substeps(), 1);
    assert_eq!(Simulation::for_digits(3).unwrap().substeps(), 4096);
    assert_eq!(Simulation::for_digits(6).unwrap().substeps(), 16_777_216);
}

#[test]
fn standard_setup_masses() {
    let s = Simulation::for_digits(3).unwrap();
    assert_eq!(s.b().mass(), 1_000_000);
    assert_eq!(s.b().size(), 200);
    assert_eq!(s.a().size(), 50);
    assert_eq!(s.wall_x(), WALL_X);
    assert_eq!(s.digits(), 3);
    assert_eq!(s.bounce_count(), 0);
}

#[test]
fn too_many_digits_are_refused() {
    assert_eq!(Simulation::for_digits(7).err(), Some(SimulationError::DigitsTooLarge));
    let a = Cube::new(0, 1, 0).unwrap();
    let b = Cube::new(10, 1, 0).unwrap();
    assert_eq!(Simulation::new(a, b, 0, 7).err(), Some(SimulationError::DigitsTooLarge));
}

#[test]
fn far_wall_is_refused() {
    let a = Cube::new(0, 1, 0).unwrap();
    let b = Cube::new(10, 1, 0).unwrap();
    assert_eq!(
        Simulation::new(a, b, i64::MAX, 1).err(),
        Some(SimulationError::WallOutOfRange)
    );
}

#[test]
fn blocks_out_of_order_are_refused() {
    let a = Cube::new(10, 1, 0).unwrap();
    let b = Cube::new(10, 1, 0).unwrap();
    assert_eq!(Simulation::new(a, b, 0, 1).err(), Some(SimulationError::BodiesOutOfOrder));
}

#[test]
fn too_much_energy_is_refused() {
    let v: i64 = 1 << 60;
    let a = Cube::new(0, 1, v).unwrap();
    let b = Cube::new(10, 1, -v).unwrap();
    assert_eq!(Simulation::new(a, b, 0, 1).err(), Some(SimulationError::TooMuchEnergy));
}

#[test]
fn substep_reports_a_wall_bounce() {
    let a = Cube::new(10, 1, -5).unwrap();
    let b = Cube::new(1000 * bouncing_pi::cube::UNITS_PER_PIXEL, 1, 0).unwrap();
    let mut s = Simulation::new(a, b, 8, 0).unwrap();
    assert!(s.substep(1));
    assert_eq!(s.bounce_count(), 1);
    assert_eq!(s.a().velocity(), 5);
    assert_eq!(s.a().x(), 15);
}

#[test]
fn overlapping_blocks_moving_apart_can_cross() {
    let a = Cube::new(0, 1, 0).unwrap();
    let b = Cube::new(1, 1, 1).unwrap();
    let mut s = Simulation::new(a, b, -60 * bouncing_pi::cube::UNITS_PER_PIXEL, 0).unwrap();
    assert!(s.substep(1000));
    assert_eq!(s.a().velocity(), 1);
    assert_eq!(s.b().velocity(), 0);
    assert_eq!(s.a().x(), 1000);
    assert_eq!(s.b().x(), 1);
}
