//! The stepper: two blocks and a wall, advanced frame by frame, with the
//! running count of collisions and the estimate of pi it gives.
use vstd::prelude::*;

use crate::cube::{
    energy, in_contact, after_collision, clamp_size, double_kinetic, Cube, CubeModel,
    MAX_CUBE_SIZE, MAX_ENERGY, MAX_MASS, MIN_CUBE_SIZE, UNITS_PER_PIXEL,
};

verus! {

/// Largest number of digits of pi a simulation may aim for.
pub const MAX_DIGITS: u32 = 6;

/// Length of one sub-step, in microseconds.
pub const SUBSTEP_DELTA: u32 = 1000;

/// Farthest the wall may stand from the origin, in position units.
pub const MAX_WALL_X: i64 = 0x4000_0000_0000_0000;

/// Wall position of the standard setup: a sixth of a 640-pixel viewport.
pub const WALL_X: i64 = 106_666_666_666_666_666;

/// Starting position of the left block in the standard setup (160 pixels).
pub const START_X_A: i64 = 160 * UNITS_PER_PIXEL;

/// Starting position of the right block in the standard setup (320 pixels).
pub const START_X_B: i64 = 320 * UNITS_PER_PIXEL;

/// Starting velocity of the right block in the standard setup: 100 pixels
/// per second to the left.
pub const START_VELOCITY_B: i64 = -100_000_000_000;

/// Why a simulation could not be set up.
#[derive(Debug, Clone, Copy, PartialEq, Eq)]
pub enum SimulationError {
    /// More digits than `MAX_DIGITS`.
    DigitsTooLarge,
    /// The wall is farther than `MAX_WALL_X` from the origin.
    WallOutOfRange,
    /// The left block does not start left of the right one.
    BodiesOutOfOrder,
    /// The two blocks together carry more than `MAX_ENERGY`.
    TooMuchEnergy,
}

/// `base` to the power `exp`.
pub open spec fn pow_nat(base: nat, exp: nat) -> nat
    decreases exp,
{
    if exp == 0 {
        1
    } else {
        base * pow_nat(base, (exp - 1) as nat)
    }
}

/// How many sub-steps a frame runs when aiming for `digits` digits.
pub open spec fn substeps_for(digits: nat) -> nat {
    if digits > 2 {
        pow_nat(16, digits)
    } else {
        1
    }
}

/// The counter after one event: one more when it happened, unless the
/// counter is already at its largest value.
pub open spec fn bump(count: nat, happened: bool) -> nat {
    if happened && count < u64::MAX {
        count + 1
    } else {
        count
    }
}

/// What a simulation is, as plain values.
pub struct SimulationModel {
    pub a: CubeModel,
    pub b: CubeModel,
    pub wall_x: int,
    pub digits: nat,
    pub bounce_count: nat,
}

impl SimulationModel {
    pub open spec fn wf(self) -> bool {
        &&& self.a.wf()
        &&& self.b.wf()
        &&& energy(self.a, self.b) <= MAX_ENERGY
        &&& -MAX_WALL_X <= self.wall_x <= MAX_WALL_X
        &&& self.digits <= MAX_DIGITS
        &&& self.bounce_count <= u64::MAX
    }

    /// The estimate of pi, as a fraction: the bounce count over
    /// `10^digits`.
    pub open spec fn estimate(self) -> (nat, nat) {
        (self.bounce_count, pow_nat(10, self.digits))
    }
}

/// One sub-step: the blocks collide if they touch, then the left block
/// bounces off the wall if it meets it, then both move, the left one kept
/// right of the wall and the right one right of the wall plus the left
/// block's size. The flag says whether any collision happened.
pub open spec fn after_substep(s: SimulationModel, delta: int) -> (SimulationModel, bool) {
    let hit_pair = in_contact(s.a, s.b, delta);
    let a1 = if hit_pair { after_collision(s.a, s.b).0 } else { s.a };
    let b1 = if hit_pair { after_collision(s.a, s.b).1 } else { s.b };
    let hit_wall = a1.meets_wall(delta, s.wall_x);
    let a2 = if hit_wall { a1.with_velocity(-a1.velocity) } else { a1 };
    let a3 = a2.moved(delta, s.wall_x);
    let b3 = b1.moved(delta, s.wall_x + a3.extent());
    (
        SimulationModel {
            a: a3,
            b: b3,
            bounce_count: bump(bump(s.bounce_count, hit_pair), hit_wall),
            ..s
        },
        hit_pair || hit_wall,
    )
}

/// `n` sub-steps in a row, and whether any of them had a collision.
pub open spec fn after_substeps(s: SimulationModel, delta: int, n: nat) -> (
    SimulationModel,
    bool,
)
    decreases n,
{
    if n == 0 {
        (s, false)
    } else {
        let (t, earlier) = after_substeps(s, delta, (n - 1) as nat);
        let (u, now) = after_substep(t, delta);
        (u, earlier || now)
    }
}

/// Two blocks, a wall and the count of collisions so far.
///
/// The left block starts left of the right one, but the stepper does not
/// keep that order in general: the contact test looks at positions only,
/// and each block is clamped against a floor made of the wall, not of the
/// other block. Blocks that already overlap while moving apart collide
/// again, turn toward each other and can cross in the same sub-step.
pub struct Simulation {
    a: Cube,
    b: Cube,
    wall_x: i64,
    digits: u32,
    substeps: u64,
    bounce_count: u64,
}

impl Simulation {
    pub closed spec fn view(&self) -> SimulationModel {
        SimulationModel {
            a: self.a@,
            b: self.b@,
            wall_x: self.wall_x as int,
            digits: self.digits as nat,
            bounce_count: self.bounce_count as nat,
        }
    }

    pub closed spec fn wf(&self) -> bool {
        &&& self@.wf()
        &&& self.substeps == substeps_for(self.digits as nat)
    }

    /// A simulation of `a`, on the left, and `b`, on the right, with the
    /// wall at `wall_x`, aiming for `digits` digits of pi.
    pub fn new(a: Cube, b: Cube, wall_x: i64, digits: u32) -> (r: Result<
        Simulation,
        SimulationError,
    >)
        requires
            a.wf(),
            b.wf(),
        ensures
            digits > MAX_DIGITS ==> r == Err::<Simulation, SimulationError>(
                SimulationError::DigitsTooLarge,
            ),
            digits <= MAX_DIGITS && !(-MAX_WALL_X <= wall_x <= MAX_WALL_X) ==> r == Err::<
                Simulation,
                SimulationError,
            >(SimulationError::WallOutOfRange),
            digits <= MAX_DIGITS && -MAX_WALL_X <= wall_x <= MAX_WALL_X && a@.x >= b@.x ==> r
                == Err::<Simulation, SimulationError>(SimulationError::BodiesOutOfOrder),
            digits <= MAX_DIGITS && -MAX_WALL_X <= wall_x <= MAX_WALL_X && a@.x < b@.x && energy(
                a@,
                b@,
            ) > MAX_ENERGY ==> r == Err::<Simulation, SimulationError>(
                SimulationError::TooMuchEnergy,
            ),
            r is Ok <==> (digits <= MAX_DIGITS && -MAX_WALL_X <= wall_x <= MAX_WALL_X && a@.x
                < b@.x && energy(a@, b@) <= MAX_ENERGY),
            r is Ok ==> r->Ok_0.wf() && r->Ok_0@ == (SimulationModel {
                a: a@,
                b: b@,
                wall_x: wall_x as int,
                digits: digits as nat,
                bounce_count: 0,
            }),
    {
        if digits > MAX_DIGITS {
            return Err(SimulationError::DigitsTooLarge);
        }
        if wall_x < -MAX_WALL_X || wall_x > MAX_WALL_X {
            return Err(SimulationError::WallOutOfRange);
        }
        if a.x() >= b.x() {
            return Err(SimulationError::BodiesOutOfOrder);
        }
        let total = double_kinetic_exec(&a) + double_kinetic_exec(&b);
        if total > MAX_ENERGY {
            return Err(SimulationError::TooMuchEnergy);
        }
        let substeps = if digits > 2 {
            proof {
                lemma_pow_monotone(16, digits as nat, MAX_DIGITS as nat);
                reveal_with_fuel(pow_nat, 7);
            }
            power(16, digits)
        } else {
            1
        };
        Ok(Simulation { a, b, wall_x, digits, substeps, bounce_count: 0 })
    }

    /// The standard setup for `digits` digits: a 1 kg block at rest at
    /// `START_X_A`, a block of `100^digits` kg at `START_X_B` moving at
    /// `START_VELOCITY_B`, and the wall at `WALL_X`.
    pub fn for_digits(digits: u32) -> (r: Result<Simulation, SimulationError>)
        ensures
            r is Ok <==> digits <= MAX_DIGITS,
            digits > MAX_DIGITS ==> r == Err::<Simulation, SimulationError>(
                SimulationError::DigitsTooLarge,
            ),
            r is Ok ==> r->Ok_0.wf() && r->Ok_0@ == (SimulationModel {
                a: CubeModel { x: START_X_A as int, mass: 1, velocity: 0, size: MIN_CUBE_SIZE as int },
                b: CubeModel {
                    x: START_X_B as int,
                    mass: pow_nat(100, digits as nat) as int,
                    velocity: START_VELOCITY_B as int,
                    size: clamp_size(pow_nat(100, digits as nat) as int),
                },
                wall_x: WALL_X as int,
                digits: digits as nat,
                bounce_count: 0,
            }),
    {
        if digits > MAX_DIGITS {
            return Err(SimulationError::DigitsTooLarge);
        }
        proof {
            lemma_pow_monotone(100, digits as nat, MAX_DIGITS as nat);
            reveal_with_fuel(pow_nat, 7);
        }
        let mass_b = power(100, digits);
        proof {
            assert(double_kinetic(mass_b as int, START_VELOCITY_B as int) <= MAX_ENERGY) by (
            nonlinear_arith)
                requires 1 <= mass_b <= 1_000_000_000_000;
            assert(double_kinetic(1, 0) == 0) by (nonlinear_arith);
        }
        let a = match Cube::new(START_X_A, 1, 0) {
            Ok(c) => c,
            Err(_) => return Err(SimulationError::TooMuchEnergy),
        };
        let b = match Cube::new(START_X_B, mass_b as i64, START_VELOCITY_B) {
            Ok(c) => c,
            Err(_) => return Err(SimulationError::TooMuchEnergy),
        };
        Simulation::new(a, b, WALL_X, digits)
    }

    /// One sub-step of `delta` microseconds; returns whether any collision
    /// happened in it.
    pub fn substep(&mut self, delta: u32) -> (bounced: bool)
        requires
            old(self).wf(),
        ensures
            final(self).wf(),
            (final(self)@, bounced) == after_substep(old(self)@, delta as int),
    {
        let hit_pair = self.a.collide_cube_on_right(&mut self.b, delta);
        let hit_wall = self.a.collide_wall(delta, self.wall_x);
        self.a.update(delta, self.wall_x);
        let floor_b = self.wall_x + self.a.size() * UNITS_PER_PIXEL;
        self.b.update(delta, floor_b);
        if hit_pair && self.bounce_count < u64::MAX {
            self.bounce_count = self.bounce_count + 1;
        }
        if hit_wall && self.bounce_count < u64::MAX {
            self.bounce_count = self.bounce_count + 1;
        }
        hit_pair || hit_wall
    }

    /// One frame: as many sub-steps of `delta` microseconds as the digit
    /// target asks for. Returns whether any collision happened in the frame.
    pub fn step(&mut self, delta: u32) -> (bounced: bool)
        requires
            old(self).wf(),
        ensures
            final(self).wf(),
            (final(self)@, bounced) == after_substeps(
                old(self)@,
                delta as int,
                substeps_for(old(self)@.digits),
            ),
            final(self)@.bounce_count >= old(self)@.bounce_count,
    {
        let ghost start = self@;
        let mut bounced = false;
        let mut i: u64 = 0;
        while i < self.substeps
            invariant
                self.wf(),
                i <= self.substeps,
                self.substeps == substeps_for(start.digits),
                (self@, bounced) == after_substeps(start, delta as int, i as nat),
            decreases self.substeps - i,
        {
            let now = self.substep(delta);
            bounced = bounced || now;
            i = i + 1;
        }
        proof {
            lemma_bounce_count_monotone(start, delta as int, 0, substeps_for(start.digits));
        }
        bounced
    }

    /// The estimate of pi as a fraction: the bounce count over
    /// `10^digits`. Reading it changes nothing, so two reads in a row agree.
    pub fn pi_estimate(&self) -> (r: (u64, u64))
        requires
            self.wf(),
        ensures
            (r.0 as nat, r.1 as nat) == self@.estimate(),
    {
        proof {
            lemma_pow_monotone(10, self.digits as nat, MAX_DIGITS as nat);
            reveal_with_fuel(pow_nat, 7);
        }
        (self.bounce_count, power(10, self.digits))
    }
}

impl Simulation {
    /// The left block.
    pub fn a(&self) -> (r: &Cube)
        ensures
            r@ == self@.a,
    {
        &self.a
    }

    /// The right block.
    pub fn b(&self) -> (r: &Cube)
        ensures
            r@ == self@.b,
    {
        &self.b
    }

    pub fn wall_x(&self) -> (r: i64)
        ensures
            r == self@.wall_x,
    {
        self.wall_x
    }

    pub fn digits(&self) -> (r: u32)
        ensures
            r == self@.digits,
    {
        self.digits
    }

    /// Collisions counted so far.
    pub fn bounce_count(&self) -> (r: u64)
        ensures
            r == self@.bounce_count,
    {
        self.bounce_count
    }

    /// Sub-steps in one frame.
    pub fn substeps(&self) -> (r: u64)
        requires
            self.wf(),
        ensures
            r == substeps_for(self@.digits),
    {
        self.substeps
    }
}

/// `mass * velocity^2` of a block.
fn double_kinetic_exec(c: &Cube) -> (r: i128)
    requires
        c.wf(),
    ensures
        r == double_kinetic(c@.mass, c@.velocity),
        0 <= r <= MAX_ENERGY,
{
    let m = c.mass() as i128;
    let v = c.velocity() as i128;
    proof {
        crate::cube::lemma_velocity_bound(m as int, v as int);
        assert(-0x100_0000_0000 * 0x1000_0000_0000_0000 <= m * v <= 0x100_0000_0000 * 0x1000_0000_0000_0000)
            by (nonlinear_arith)
            requires
                1 <= m <= 0x100_0000_0000,
                -0x1000_0000_0000_0000 <= v <= 0x1000_0000_0000_0000;
        assert(m * v * v >= 0) by (nonlinear_arith)
            requires m >= 1;
    }
    m * v * v
}

/// `base^exp`, for a result that fits.
fn power(base: u64, exp: u32) -> (r: u64)
    requires
        base >= 1,
        pow_nat(base as nat, exp as nat) <= u64::MAX,
    ensures
        r == pow_nat(base as nat, exp as nat),
{
    let mut r: u64 = 1;
    let mut i: u32 = 0;
    while i < exp
        invariant
            i <= exp,
            base >= 1,
            r == pow_nat(base as nat, i as nat),
            pow_nat(base as nat, exp as nat) <= u64::MAX,
        decreases exp - i,
    {
        proof {
            lemma_pow_monotone(base as nat, (i + 1) as nat, exp as nat);
            assert(pow_nat(base as nat, (i + 1) as nat) == base * pow_nat(base as nat, i as nat));
        }
        r = base * r;
        i = i + 1;
    }
    r
}

/// For `base >= 1`, powers grow with the exponent.
proof fn lemma_pow_monotone(base: nat, i: nat, j: nat)
    requires
        base >= 1,
        i <= j,
    ensures
        pow_nat(base, i) <= pow_nat(base, j),
    decreases j,
{
    if i < j {
        lemma_pow_monotone(base, i, (j - 1) as nat);
        assert(pow_nat(base, (j - 1) as nat) <= base * pow_nat(base, (j - 1) as nat)) by (
        nonlinear_arith)
            requires base >= 1;
    }
}

/// After every sub-step each block stands at or right of its floor: the
/// left block at or right of the wall, the right block at or right of the
/// wall plus the left block's size.
pub proof fn lemma_floors_hold(s: SimulationModel, delta: int, n: nat)
    requires
        n >= 1,
    ensures
        after_substeps(s, delta, n).0.a.x >= s.wall_x,
        after_substeps(s, delta, n).0.b.x >= s.wall_x + after_substeps(s, delta, n).0.a.extent(),
    decreases n,
{
    if n > 1 {
        lemma_floors_hold(s, delta, (n - 1) as nat);
    }
    let t = after_substeps(s, delta, (n - 1) as nat).0;
    assert(t.wall_x == s.wall_x) by {
        lemma_wall_fixed(s, delta, (n - 1) as nat);
    }
}

/// Stepping never moves the wall.
proof fn lemma_wall_fixed(s: SimulationModel, delta: int, n: nat)
    ensures
        after_substeps(s, delta, n).0.wall_x == s.wall_x,
    decreases n,
{
    if n > 0 {
        lemma_wall_fixed(s, delta, (n - 1) as nat);
    }
}

/// The bounce count never goes down: after more sub-steps it is at least
/// what it was after fewer.
pub proof fn lemma_bounce_count_monotone(s: SimulationModel, delta: int, n: nat, m: nat)
    requires
        n <= m,
    ensures
        after_substeps(s, delta, n).0.bounce_count <= after_substeps(s, delta, m).0.bounce_count,
    decreases m,
{
    if n < m {
        lemma_bounce_count_monotone(s, delta, n, (m - 1) as nat);
    }
}

} // verus!
