//! A single block: its state, the elastic-collision law and the
//! position integrator.
use vstd::prelude::*;

verus! {

/// Smallest drawn and contact size of a block, in pixels.
pub const MIN_CUBE_SIZE: i64 = 50;

/// Largest drawn and contact size of a block, in pixels.
pub const MAX_CUBE_SIZE: i64 = 200;

/// Number of position units in one pixel.
pub const UNITS_PER_PIXEL: i64 = 1_000_000_000_000_000;

/// Largest mass a block may have (2^40 kg).
pub const MAX_MASS: i64 = 1_099_511_627_776;

/// Largest value of `mass * velocity^2` (twice the kinetic energy) that a
/// block, or a pair of blocks, may carry: 2^120.
pub const MAX_ENERGY: i128 = 1_329_227_995_784_915_872_903_807_060_280_344_576;

/// Why a block could not be built.
#[derive(Debug, Clone, Copy, PartialEq, Eq)]
pub enum CubeError {
    /// The mass is zero or negative.
    NonPositiveMass,
    /// The mass is above `MAX_MASS`.
    MassTooLarge,
    /// `mass * velocity^2` is above `MAX_ENERGY`.
    TooFast,
}

/// `mass` clamped into `[MIN_CUBE_SIZE, MAX_CUBE_SIZE]`.
pub open spec fn clamp_size(mass: int) -> int {
    if mass < MIN_CUBE_SIZE {
        MIN_CUBE_SIZE as int
    } else if mass > MAX_CUBE_SIZE {
        MAX_CUBE_SIZE as int
    } else {
        mass
    }
}

/// `p` saturated into the range of `i64`.
pub open spec fn saturate(p: int) -> int {
    if p < i64::MIN {
        i64::MIN as int
    } else if p > i64::MAX {
        i64::MAX as int
    } else {
        p
    }
}

/// Integer division rounded toward zero, for `d > 0`.
pub open spec fn div_toward_zero(n: int, d: int) -> int {
    if n >= 0 {
        n / d
    } else {
        -((-n) / d)
    }
}

/// The absolute value of `x`.
pub open spec fn magnitude(x: int) -> int {
    if x >= 0 {
        x
    } else {
        -x
    }
}

/// Twice the kinetic energy of a mass moving at a velocity.
pub open spec fn double_kinetic(mass: int, velocity: int) -> int {
    mass * velocity * velocity
}

/// The numerator of the 1D elastic-collision law for the body with mass
/// `m1` and velocity `v1`, hit by the body with mass `m2` and velocity `v2`:
/// the exact new velocity is this value over `m1 + m2`.
pub open spec fn elastic_numerator(m1: int, m2: int, v1: int, v2: int) -> int {
    (m1 - m2) * v1 + 2 * m2 * v2
}

/// The new velocity of the first body after an elastic collision, rounded
/// toward zero to a whole velocity unit.
pub open spec fn elastic_velocity(m1: int, m2: int, v1: int, v2: int) -> int {
    div_toward_zero(elastic_numerator(m1, m2, v1, v2), m1 + m2)
}

/// What a block is, as plain numbers.
pub struct CubeModel {
    pub x: int,
    pub mass: int,
    pub velocity: int,
    pub size: int,
}

impl CubeModel {
    /// The block's invariant: a valid mass, the size it implies, and an
    /// energy within bounds.
    pub open spec fn wf(self) -> bool {
        &&& 1 <= self.mass <= MAX_MASS
        &&& self.size == clamp_size(self.mass)
        &&& i64::MIN <= self.x <= i64::MAX
        &&& double_kinetic(self.mass, self.velocity) <= MAX_ENERGY
    }

    /// Where the block would be after `delta` microseconds, saturated.
    pub open spec fn next_x(self, delta: int) -> int {
        saturate(self.x + delta * self.velocity)
    }

    /// The block's size in position units.
    pub open spec fn extent(self) -> int {
        self.size * UNITS_PER_PIXEL
    }

    /// The block, moving left, would reach the wall within `delta`.
    pub open spec fn meets_wall(self, delta: int, wall_x: int) -> bool {
        self.next_x(delta) <= wall_x && self.velocity < 0
    }

    pub open spec fn with_velocity(self, velocity: int) -> CubeModel {
        CubeModel { velocity, ..self }
    }

    /// The block advanced by `delta`, kept at or right of `minimum_x`.
    pub open spec fn moved(self, delta: int, minimum_x: int) -> CubeModel {
        let next = self.next_x(delta);
        CubeModel { x: if next >= minimum_x { next } else { minimum_x }, ..self }
    }
}

/// The left block `l` would touch or overlap the right block `r` after `delta`.
pub open spec fn in_contact(l: CubeModel, r: CubeModel, delta: int) -> bool {
    l.next_x(delta) + l.extent() >= r.next_x(delta)
}

/// Total momentum of two blocks.
pub open spec fn momentum(l: CubeModel, r: CubeModel) -> int {
    l.mass * l.velocity + r.mass * r.velocity
}

/// Twice the total kinetic energy of two blocks.
pub open spec fn energy(l: CubeModel, r: CubeModel) -> int {
    double_kinetic(l.mass, l.velocity) + double_kinetic(r.mass, r.velocity)
}

/// The two blocks after the left one `l` hits the right one `r`.
pub open spec fn after_collision(l: CubeModel, r: CubeModel) -> (CubeModel, CubeModel) {
    (
        l.with_velocity(elastic_velocity(l.mass, r.mass, l.velocity, r.velocity)),
        r.with_velocity(elastic_velocity(r.mass, l.mass, r.velocity, l.velocity)),
    )
}

/// A block on the line. Mass and size are fixed at construction; position
/// and velocity change only through the integrator and the collisions.
pub struct Cube {
    x: i64,
    mass: i64,
    velocity: i64,
    size: i64,
}

impl Cube {
    pub closed spec fn view(&self) -> CubeModel {
        CubeModel {
            x: self.x as int,
            mass: self.mass as int,
            velocity: self.velocity as int,
            size: self.size as int,
        }
    }

    pub open spec fn wf(&self) -> bool {
        self.view().wf()
    }

    proof fn lemma_wf_bounds(&self)
        requires
            self.wf(),
        ensures
            -0x1000_0000_0000_0000 <= self.velocity <= 0x1000_0000_0000_0000,
    {
        lemma_velocity_bound(self.mass as int, self.velocity as int);
    }

    /// A block at `x` with a mass and a velocity; its size is the mass
    /// clamped into `[MIN_CUBE_SIZE, MAX_CUBE_SIZE]`.
    pub fn new(x: i64, mass: i64, velocity: i64) -> (r: Result<Cube, CubeError>)
        ensures
            mass < 1 ==> r == Err::<Cube, CubeError>(CubeError::NonPositiveMass),
            mass > MAX_MASS ==> r == Err::<Cube, CubeError>(CubeError::MassTooLarge),
            1 <= mass <= MAX_MASS && double_kinetic(mass as int, velocity as int) > MAX_ENERGY
                ==> r == Err::<Cube, CubeError>(CubeError::TooFast),
            r is Ok <==> (1 <= mass <= MAX_MASS && double_kinetic(mass as int, velocity as int)
                <= MAX_ENERGY),
            r is Ok ==> r->Ok_0.wf() && r->Ok_0@ == (CubeModel {
                x: x as int,
                mass: mass as int,
                velocity: velocity as int,
                size: clamp_size(mass as int),
            }),
    {
        if mass < 1 {
            return Err(CubeError::NonPositiveMass);
        }
        if mass > MAX_MASS {
            return Err(CubeError::MassTooLarge);
        }
        let v = velocity as i128;
        proof {
            assert(0 <= v * v <= 0x8000_0000_0000_0000 * 0x8000_0000_0000_0000) by (nonlinear_arith)
                requires -0x8000_0000_0000_0000 <= v <= 0x8000_0000_0000_0000;
        }
        let square: i128 = v * v;
        let limit: i128 = MAX_ENERGY / (mass as i128);
        proof {
            lemma_mul_le_iff_le_div(mass as int, square as int, MAX_ENERGY as int);
            assert(double_kinetic(mass as int, velocity as int) == mass * square) by (nonlinear_arith)
                requires square == velocity * velocity;
        }
        if square > limit {
            return Err(CubeError::TooFast);
        }
        let size = if mass < MIN_CUBE_SIZE {
            MIN_CUBE_SIZE
        } else if mass > MAX_CUBE_SIZE {
            MAX_CUBE_SIZE
        } else {
            mass
        };
        Ok(Cube { x, mass, velocity, size })
    }

    pub fn x(&self) -> (r: i64)
        ensures
            r == self@.x,
    {
        self.x
    }

    pub fn size(&self) -> (r: i64)
        ensures
            r == self@.size,
    {
        self.size
    }

    pub fn mass(&self) -> (r: i64)
        ensures
            r == self@.mass,
    {
        self.mass
    }

    pub fn velocity(&self) -> (r: i64)
        ensures
            r == self@.velocity,
    {
        self.velocity
    }

    /// Where the block would be after `delta` microseconds, without moving
    /// it; saturated into the range of `i64`.
    pub fn next_x(&self, delta: u32) -> (r: i64)
        ensures
            r == self@.next_x(delta as int),
    {
        proof {
            assert(-0x1_0000_0000 * 0x8000_0000_0000_0000 <= delta * self.velocity
                <= 0x1_0000_0000 * 0x8000_0000_0000_0000) by (nonlinear_arith)
                requires
                    0 <= delta < 0x1_0000_0000,
                    -0x8000_0000_0000_0000 <= self.velocity < 0x8000_0000_0000_0000;
        }
        let p: i128 = self.x as i128 + (delta as i128) * (self.velocity as i128);
        if p < i64::MIN as i128 {
            i64::MIN
        } else if p > i64::MAX as i128 {
            i64::MAX
        } else {
            p as i64
        }
    }

    /// Bounces the block off the wall at `wall_x`: when it is moving left
    /// and would be at or left of the wall after `delta`, its velocity is
    /// reversed. Returns whether that happened.
    pub fn collide_wall(&mut self, delta: u32, wall_x: i64) -> (r: bool)
        requires
            old(self).wf(),
        ensures
            r == old(self)@.meets_wall(delta as int, wall_x as int),
            r ==> final(self)@ == old(self)@.with_velocity(-old(self)@.velocity),
            !r ==> final(self)@ == old(self)@,
            old(self)@.velocity >= 0 ==> !r,
            double_kinetic(final(self)@.mass, final(self)@.velocity) == double_kinetic(
                old(self)@.mass,
                old(self)@.velocity,
            ),
            final(self).wf(),
    {
        proof {
            self.lemma_wf_bounds();
        }
        if self.next_x(delta) <= wall_x && self.velocity < 0 {
            self.velocity = -self.velocity;
            proof {
                lemma_double_kinetic_neg(old(self)@.mass, old(self)@.velocity);
            }
            true
        } else {
            false
        }
    }

    /// Resolves a collision between this block and `other`, on its right:
    /// when this block's far edge would reach `other` after `delta`, both
    /// take their velocities from the elastic-collision law. Returns
    /// whether they collided.
    pub fn collide_cube_on_right(&mut self, other: &mut Cube, delta: u32) -> (r: bool)
        requires
            old(self).wf(),
            old(other).wf(),
            energy(old(self)@, old(other)@) <= MAX_ENERGY,
        ensures
            r == in_contact(old(self)@, old(other)@, delta as int),
            r ==> (final(self)@, final(other)@) == after_collision(old(self)@, old(other)@),
            !r ==> final(self)@ == old(self)@ && final(other)@ == old(other)@,
            energy(final(self)@, final(other)@) <= energy(old(self)@, old(other)@),
            final(self).wf(),
            final(other).wf(),
    {
        proof {
            self.lemma_wf_bounds();
            other.lemma_wf_bounds();
        }
        let far_edge: i128 = self.next_x(delta) as i128 + (self.size as i128) * (
        UNITS_PER_PIXEL as i128);
        if far_edge >= other.next_x(delta) as i128 {
            let m1 = self.mass as i128;
            let m2 = other.mass as i128;
            let v1 = self.velocity as i128;
            let v2 = other.velocity as i128;
            proof {
                lemma_numerator_bound(m1 as int, m2 as int, v1 as int, v2 as int);
                lemma_numerator_bound(m2 as int, m1 as int, v2 as int, v1 as int);
            }
            let q1 = quotient_toward_zero((m1 - m2) * v1 + 2 * m2 * v2, m1 + m2);
            let q2 = quotient_toward_zero((m2 - m1) * v2 + 2 * m1 * v1, m2 + m1);
            proof {
                lemma_collision_energy(old(self)@, old(other)@);
                let (l, r) = after_collision(old(self)@, old(other)@);
                assert(l.velocity == q1 && r.velocity == q2);
                lemma_double_kinetic_nonneg(l.mass, l.velocity);
                lemma_double_kinetic_nonneg(r.mass, r.velocity);
                lemma_velocity_bound(l.mass, l.velocity);
                lemma_velocity_bound(r.mass, r.velocity);
            }
            self.velocity = q1 as i64;
            other.velocity = q2 as i64;
            true
        } else {
            false
        }
    }

    /// Advances the block by `delta`, but never to the left of `minimum_x`.
    pub fn update(&mut self, delta: u32, minimum_x: i64)
        requires
            old(self).wf(),
        ensures
            final(self)@ == old(self)@.moved(delta as int, minimum_x as int),
            final(self)@.x >= minimum_x,
            final(self).wf(),
    {
        let next = self.next_x(delta);
        self.x = if next >= minimum_x {
            next
        } else {
            minimum_x
        };
    }
}

/// `n` over `d`, rounded toward zero.
fn quotient_toward_zero(n: i128, d: i128) -> (q: i128)
    requires
        d > 0,
        n > i128::MIN,
    ensures
        q == div_toward_zero(n as int, d as int),
{
    if n >= 0 {
        n / d
    } else {
        -((-n) / d)
    }
}

proof fn lemma_double_kinetic_neg(m: int, v: int)
    ensures
        double_kinetic(m, -v) == double_kinetic(m, v),
{
    assert(m * (-v) * (-v) == m * v * v) by (nonlinear_arith);
}

proof fn lemma_double_kinetic_nonneg(m: int, v: int)
    requires
        m >= 0,
    ensures
        double_kinetic(m, v) >= 0,
{
    assert(m * v * v >= 0) by (nonlinear_arith)
        requires m >= 0;
}

proof fn lemma_numerator_bound(m1: int, m2: int, v1: int, v2: int)
    requires
        1 <= m1 <= MAX_MASS,
        1 <= m2 <= MAX_MASS,
        -0x1000_0000_0000_0000 <= v1 <= 0x1000_0000_0000_0000,
        -0x1000_0000_0000_0000 <= v2 <= 0x1000_0000_0000_0000,
    ensures
        -0x100_0000_0000_0000_0000_0000_0000 <= (m1 - m2) * v1 <= 0x100_0000_0000_0000_0000_0000_0000,
        -0x100_0000_0000_0000_0000_0000_0000 <= 2 * m2 * v2 <= 0x100_0000_0000_0000_0000_0000_0000,
        -0x100_0000_0000_0000_0000_0000_0000 <= m2 * v2 <= 0x100_0000_0000_0000_0000_0000_0000,
{
    assert(-0x100_0000_0000_0000_0000_0000_0000 <= (m1 - m2) * v1 <= 0x100_0000_0000_0000_0000_0000_0000)
        by (nonlinear_arith)
        requires
            -0x100_0000_0000 <= m1 - m2 <= 0x100_0000_0000,
            -0x1000_0000_0000_0000 <= v1 <= 0x1000_0000_0000_0000;
    assert(-0x100_0000_0000_0000_0000_0000_0000 <= 2 * m2 * v2 <= 0x100_0000_0000_0000_0000_0000_0000)
        by (nonlinear_arith)
        requires
            1 <= m2 <= 0x100_0000_0000,
            -0x1000_0000_0000_0000 <= v2 <= 0x1000_0000_0000_0000;
    assert(-0x100_0000_0000_0000_0000_0000_0000 <= m2 * v2 <= 0x100_0000_0000_0000_0000_0000_0000)
        by (nonlinear_arith)
        requires
            1 <= m2 <= 0x100_0000_0000,
            -0x1000_0000_0000_0000 <= v2 <= 0x1000_0000_0000_0000;
}

/// Rounding toward zero leaves a remainder of the numerator's sign,
/// smaller in size than the divisor.
proof fn lemma_div_toward_zero(n: int, d: int)
    requires
        d > 0,
    ensures
        n >= 0 ==> div_toward_zero(n, d) >= 0 && 0 <= n - div_toward_zero(n, d) * d < d,
        n < 0 ==> div_toward_zero(n, d) <= 0 && -d < n - div_toward_zero(n, d) * d <= 0,
{
    if n >= 0 {
        vstd::arithmetic::div_mod::lemma_fundamental_div_mod(n, d);
        vstd::arithmetic::div_mod::lemma_div_pos_is_pos(n, d);
        assert(d * (n / d) == (n / d) * d) by (nonlinear_arith);
    } else {
        let k = (-n) / d;
        vstd::arithmetic::div_mod::lemma_fundamental_div_mod(-n, d);
        vstd::arithmetic::div_mod::lemma_div_pos_is_pos(-n, d);
        assert(d * k == k * d) by (nonlinear_arith);
        assert(div_toward_zero(n, d) == -k);
        assert((-k) * d == -(k * d)) by (nonlinear_arith);
    }
}

/// Rounding toward zero never grows the square: `(q * d)^2 <= n^2`.
proof fn lemma_div_toward_zero_square(n: int, d: int)
    requires
        d > 0,
    ensures
        div_toward_zero(n, d) * div_toward_zero(n, d) * (d * d) <= n * n,
{
    lemma_div_toward_zero(n, d);
    let q = div_toward_zero(n, d);
    let r = n - q * d;
    assert(q * q * (d * d) <= n * n) by (nonlinear_arith)
        requires
            n == q * d + r,
            (q >= 0 && r >= 0) || (q <= 0 && r <= 0),
            d > 0;
}

/// What rounding toward zero takes off the square: `n^2 - (q * d)^2` is
/// less than `d^2 * (2 * |q| + 1)`.
proof fn lemma_div_toward_zero_square_gap(n: int, d: int)
    requires
        d > 0,
    ensures
        n * n - div_toward_zero(n, d) * div_toward_zero(n, d) * (d * d) < (d * d) * (2 * magnitude(
            div_toward_zero(n, d),
        ) + 1),
{
    lemma_div_toward_zero(n, d);
    let q = div_toward_zero(n, d);
    let r = n - q * d;
    let a = magnitude(q);
    let b = magnitude(r);
    assert(q * r == a * b && r * r == b * b) by (nonlinear_arith)
        requires
            (q >= 0 && r >= 0 && a == q && b == r) || (q <= 0 && r <= 0 && a == -q && b == -r);
    assert(n * n == q * q * (d * d) + 2 * (q * r) * d + r * r) by (nonlinear_arith)
        requires n == q * d + r;
    assert(2 * (a * b) * d <= 2 * a * (d * d)) by (nonlinear_arith)
        requires 0 <= b < d, a >= 0;
    assert(b * b < d * d) by (nonlinear_arith)
        requires 0 <= b < d;
    assert(2 * a * (d * d) + d * d == (d * d) * (2 * a + 1)) by (nonlinear_arith);
}

/// `m1 * q1^2 + m2 * q2^2`, scaled by `dd`, term by term.
proof fn lemma_scaled_sum(dd: int, m1: int, q1: int, m2: int, q2: int)
    ensures
        m1 * (q1 * q1 * dd) + m2 * (q2 * q2 * dd) == dd * (m1 * q1 * q1 + m2 * q2 * q2),
{
    let x = m1 * q1 * q1;
    let y = m2 * q2 * q2;
    assert(m1 * (q1 * q1 * dd) == dd * x) by (nonlinear_arith)
        requires x == m1 * q1 * q1;
    assert(m2 * (q2 * q2 * dd) == dd * y) by (nonlinear_arith)
        requires y == m2 * q2 * q2;
    assert(dd * x + dd * y == dd * (x + y)) by (nonlinear_arith);
}

/// The exact elastic-collision law conserves momentum: scaled by the total
/// mass, the momentum after equals the momentum before.
pub proof fn lemma_elastic_momentum_exact(m1: int, m2: int, v1: int, v2: int)
    ensures
        m1 * elastic_numerator(m1, m2, v1, v2) + m2 * elastic_numerator(m2, m1, v2, v1) == (m1
            + m2) * (m1 * v1 + m2 * v2),
{
    let d = m1 + m2;
    let w = v2 - v1;
    let n1 = elastic_numerator(m1, m2, v1, v2);
    let n2 = elastic_numerator(m2, m1, v2, v1);
    lemma_numerators_shifted(m1, m2, v1, v2);
    assert(m1 * n1 == d * (m1 * v1) + 2 * (m1 * m2 * w)) by (nonlinear_arith)
        requires n1 == d * v1 + 2 * m2 * w;
    assert(m2 * n2 == d * (m2 * v2) - 2 * (m1 * m2 * w)) by (nonlinear_arith)
        requires n2 == d * v2 - 2 * m1 * w;
    assert(d * (m1 * v1) + d * (m2 * v2) == d * (m1 * v1 + m2 * v2)) by (nonlinear_arith);
}

/// Each numerator is the old velocity times the total mass, plus twice the
/// other mass times the relative velocity `v2 - v1`.
proof fn lemma_numerators_shifted(m1: int, m2: int, v1: int, v2: int)
    ensures
        elastic_numerator(m1, m2, v1, v2) == (m1 + m2) * v1 + 2 * m2 * (v2 - v1),
        elastic_numerator(m2, m1, v2, v1) == (m1 + m2) * v2 - 2 * m1 * (v2 - v1),
{
    assert((m1 - m2) * v1 + 2 * m2 * v2 == (m1 + m2) * v1 + 2 * m2 * (v2 - v1)) by (nonlinear_arith);
    assert((m2 - m1) * v2 + 2 * m1 * v1 == (m1 + m2) * v2 - 2 * m1 * (v2 - v1)) by (nonlinear_arith);
}

/// `m * (x + y)^2` expanded.
proof fn lemma_weighted_square(m: int, x: int, y: int)
    ensures
        m * (x + y) * (x + y) == m * (x * x) + 2 * m * (x * y) + m * (y * y),
{
    assert(m * (x + y) * (x + y) == m * (x * x) + 2 * m * (x * y) + m * (y * y)) by (nonlinear_arith);
}

/// The exact elastic-collision law conserves kinetic energy: scaled by the
/// square of the total mass, the energy after equals the energy before.
pub proof fn lemma_elastic_energy_exact(m1: int, m2: int, v1: int, v2: int)
    ensures
        m1 * elastic_numerator(m1, m2, v1, v2) * elastic_numerator(m1, m2, v1, v2) + m2
            * elastic_numerator(m2, m1, v2, v1) * elastic_numerator(m2, m1, v2, v1) == (m1 + m2)
            * (m1 + m2) * (m1 * v1 * v1 + m2 * v2 * v2),
{
    let d = m1 + m2;
    let w = v2 - v1;
    let n1 = elastic_numerator(m1, m2, v1, v2);
    let n2 = elastic_numerator(m2, m1, v2, v1);
    lemma_numerators_shifted(m1, m2, v1, v2);
    let x1 = d * v1;
    let y1 = 2 * m2 * w;
    let x2 = d * v2;
    let y2 = -(2 * m1 * w);
    lemma_weighted_square(m1, x1, y1);
    lemma_weighted_square(m2, x2, y2);
    let k = m1 * m2;
    assert(m1 * (x1 * x1) == d * d * (m1 * v1 * v1)) by (nonlinear_arith)
        requires x1 == d * v1;
    assert(m2 * (x2 * x2) == d * d * (m2 * v2 * v2)) by (nonlinear_arith)
        requires x2 == d * v2;
    assert(2 * m1 * (x1 * y1) == 4 * d * k * (v1 * w)) by (nonlinear_arith)
        requires x1 == d * v1, y1 == 2 * m2 * w, k == m1 * m2;
    assert(2 * m2 * (x2 * y2) == -(4 * d * k * (v2 * w))) by (nonlinear_arith)
        requires x2 == d * v2, y2 == -(2 * m1 * w), k == m1 * m2;
    assert(m1 * (y1 * y1) == 4 * k * m2 * (w * w)) by (nonlinear_arith)
        requires y1 == 2 * m2 * w, k == m1 * m2;
    assert(m2 * (y2 * y2) == 4 * k * m1 * (w * w)) by (nonlinear_arith)
        requires y2 == -(2 * m1 * w), k == m1 * m2;
    assert(4 * d * k * (v1 * w) - 4 * d * k * (v2 * w) == -(4 * d * k * (w * w))) by (
    nonlinear_arith)
        requires w == v2 - v1;
    assert(4 * k * m2 * (w * w) + 4 * k * m1 * (w * w) == 4 * d * k * (w * w)) by (nonlinear_arith)
        requires d == m1 + m2;
    assert(d * d * (m1 * v1 * v1) + d * d * (m2 * v2 * v2) == d * d * (m1 * v1 * v1 + m2 * v2 * v2))
        by (nonlinear_arith);
}

/// A body-body collision between blocks of positive mass keeps the kinetic
/// energy up to rounding: it never adds any, and it loses less than
/// `mL * (2 * |vL'| + 1) + mR * (2 * |vR'| + 1)`, in the units of
/// `mass * velocity^2`.
pub proof fn lemma_collision_energy_kept(l: CubeModel, r: CubeModel)
    requires
        l.mass >= 1,
        r.mass >= 1,
    ensures
        energy(after_collision(l, r).0, after_collision(l, r).1) <= energy(l, r),
        energy(l, r) - energy(after_collision(l, r).0, after_collision(l, r).1) < l.mass * (2
            * magnitude(after_collision(l, r).0.velocity) + 1) + r.mass * (2 * magnitude(
            after_collision(l, r).1.velocity,
        ) + 1),
{
    lemma_collision_energy(l, r);
    let (m1, m2, v1, v2) = (l.mass, r.mass, l.velocity, r.velocity);
    let d = m1 + m2;
    let n1 = elastic_numerator(m1, m2, v1, v2);
    let n2 = elastic_numerator(m2, m1, v2, v1);
    let q1 = div_toward_zero(n1, d);
    let q2 = div_toward_zero(n2, d);
    lemma_div_toward_zero_square_gap(n1, d);
    lemma_div_toward_zero_square_gap(n2, d);
    lemma_elastic_energy_exact(m1, m2, v1, v2);
    let dd = d * d;
    let e = m1 * v1 * v1 + m2 * v2 * v2;
    let f = m1 * q1 * q1 + m2 * q2 * q2;
    let a1 = magnitude(q1);
    let a2 = magnitude(q2);
    let g = m1 * (2 * a1 + 1) + m2 * (2 * a2 + 1);
    assert(m2 * (n2 * n2 - q2 * q2 * dd) <= m2 * (dd * (2 * a2 + 1))) by (nonlinear_arith)
        requires m2 >= 1, n2 * n2 - q2 * q2 * dd < dd * (2 * a2 + 1);
    lemma_scaled_sum(dd, m1, q1, m2, q2);
    assert(m1 * (n1 * n1 - q1 * q1 * dd) == m1 * n1 * n1 - m1 * (q1 * q1 * dd)) by (nonlinear_arith);
    assert(m2 * (n2 * n2 - q2 * q2 * dd) == m2 * n2 * n2 - m2 * (q2 * q2 * dd)) by (nonlinear_arith);
    assert(m1 * (dd * (2 * a1 + 1)) + m2 * (dd * (2 * a2 + 1)) == dd * g) by (
    nonlinear_arith)
        requires g == m1 * (2 * a1 + 1) + m2 * (2 * a2 + 1);
    assert(dd > 0) by (nonlinear_arith)
        requires d >= 2, dd == d * d;
    assert(m1 * (n1 * n1 - q1 * q1 * dd) < m1 * (dd * (2 * a1 + 1))) by (nonlinear_arith)
        requires m1 >= 1, n1 * n1 - q1 * q1 * dd < dd * (2 * a1 + 1);
    assert(e - f < g) by (nonlinear_arith)
        requires dd > 0, dd * e - dd * f < dd * g;
}

/// A body-body collision between blocks of positive mass never adds
/// kinetic energy: rounding the new velocities toward zero can only lose
/// some.
pub proof fn lemma_collision_energy(l: CubeModel, r: CubeModel)
    requires
        l.mass >= 1,
        r.mass >= 1,
    ensures
        energy(after_collision(l, r).0, after_collision(l, r).1) <= energy(l, r),
{
    let (m1, m2, v1, v2) = (l.mass, r.mass, l.velocity, r.velocity);
    let d = m1 + m2;
    let n1 = elastic_numerator(m1, m2, v1, v2);
    let n2 = elastic_numerator(m2, m1, v2, v1);
    let q1 = div_toward_zero(n1, d);
    let q2 = div_toward_zero(n2, d);
    lemma_div_toward_zero_square(n1, d);
    lemma_div_toward_zero_square(n2, d);
    lemma_elastic_energy_exact(m1, m2, v1, v2);
    let dd = d * d;
    let e = m1 * v1 * v1 + m2 * v2 * v2;
    let f = m1 * q1 * q1 + m2 * q2 * q2;
    assert(m1 * (q1 * q1 * dd) <= m1 * (n1 * n1)) by (nonlinear_arith)
        requires m1 >= 1, q1 * q1 * dd <= n1 * n1;
    assert(m2 * (q2 * q2 * dd) <= m2 * (n2 * n2)) by (nonlinear_arith)
        requires m2 >= 1, q2 * q2 * dd <= n2 * n2;
    lemma_scaled_sum(dd, m1, q1, m2, q2);
    assert(m1 * (n1 * n1) == m1 * n1 * n1) by (nonlinear_arith);
    assert(m2 * (n2 * n2) == m2 * n2 * n2) by (nonlinear_arith);
    assert(dd > 0) by (nonlinear_arith)
        requires d >= 2, dd == d * d;
    assert(f <= e) by (nonlinear_arith)
        requires dd > 0, dd * f <= dd * e;
}

/// A body-body collision between blocks of positive mass keeps the total
/// momentum to within less than the total mass times one velocity unit,
/// the most that rounding both velocities can move it.
pub proof fn lemma_collision_momentum(l: CubeModel, r: CubeModel)
    requires
        l.mass >= 1,
        r.mass >= 1,
    ensures
        -(l.mass + r.mass) < momentum(after_collision(l, r).0, after_collision(l, r).1)
            - momentum(l, r) < l.mass + r.mass,
{
    let (m1, m2, v1, v2) = (l.mass, r.mass, l.velocity, r.velocity);
    let d = m1 + m2;
    let n1 = elastic_numerator(m1, m2, v1, v2);
    let n2 = elastic_numerator(m2, m1, v2, v1);
    let q1 = div_toward_zero(n1, d);
    let q2 = div_toward_zero(n2, d);
    lemma_div_toward_zero(n1, d);
    lemma_div_toward_zero(n2, d);
    lemma_elastic_momentum_exact(m1, m2, v1, v2);
    let r1 = n1 - q1 * d;
    let r2 = n2 - q2 * d;
    assert(-d < m1 * q1 + m2 * q2 - (m1 * v1 + m2 * v2) < d) by (nonlinear_arith)
        requires
            m1 >= 1,
            m2 >= 1,
            d == m1 + m2,
            -d < r1 < d,
            -d < r2 < d,
            n1 == q1 * d + r1,
            n2 == q2 * d + r2,
            m1 * n1 + m2 * n2 == d * (m1 * v1 + m2 * v2);
}

/// The new velocities are no larger than `|v1| + 2 * |v2|` and
/// `|v2| + 2 * |v1|`.
proof fn lemma_collision_speed_bound(l: CubeModel, r: CubeModel)
    requires
        l.mass >= 1,
        r.mass >= 1,
    ensures
        magnitude(after_collision(l, r).0.velocity) <= magnitude(l.velocity) + 2 * magnitude(
            r.velocity,
        ),
        magnitude(after_collision(l, r).1.velocity) <= magnitude(r.velocity) + 2 * magnitude(
            l.velocity,
        ),
{
    lemma_quotient_bound(l.mass, r.mass, l.velocity, r.velocity);
    lemma_quotient_bound(r.mass, l.mass, r.velocity, l.velocity);
}

proof fn lemma_quotient_bound(m1: int, m2: int, v1: int, v2: int)
    requires
        m1 >= 1,
        m2 >= 1,
    ensures
        magnitude(elastic_velocity(m1, m2, v1, v2)) <= magnitude(v1) + 2 * magnitude(v2),
{
    let d = m1 + m2;
    let n = elastic_numerator(m1, m2, v1, v2);
    let q = elastic_velocity(m1, m2, v1, v2);
    lemma_div_toward_zero(n, d);
    let (a, b, c) = (magnitude(v1), magnitude(v2), magnitude(m1 - m2));
    assert(magnitude((m1 - m2) * v1) == c * a) by (nonlinear_arith)
        requires
            (m1 - m2 >= 0 && c == m1 - m2) || (m1 - m2 < 0 && c == -(m1 - m2)),
            (v1 >= 0 && a == v1) || (v1 < 0 && a == -v1);
    assert(magnitude(2 * m2 * v2) == 2 * m2 * b) by (nonlinear_arith)
        requires m2 >= 1, (v2 >= 0 && b == v2) || (v2 < 0 && b == -v2);
    assert(c * a <= d * a) by (nonlinear_arith)
        requires c <= d, a >= 0;
    assert(2 * m2 * b <= 2 * d * b) by (nonlinear_arith)
        requires m2 <= d, b >= 0;
    let qa = magnitude(q);
    assert(qa * d <= magnitude(n)) by (nonlinear_arith)
        requires
            d > 0,
            (n >= 0 && q >= 0 && qa == q && n - q * d >= 0) || (n < 0 && q <= 0 && qa == -q && n
                - q * d <= 0);
    assert(qa <= a + 2 * b) by (nonlinear_arith)
        requires d > 0, qa >= 0, qa * d <= d * a + 2 * d * b;
}

/// Momentum is kept to within one part in 10^9 of `|mL*vL| + |mR*vR|`,
/// once that sum is at least 10^9 times the total mass (for instance
/// when both velocities are at least 10^9 units, one pixel per second).
pub proof fn lemma_collision_momentum_relative(l: CubeModel, r: CubeModel)
    requires
        l.mass >= 1,
        r.mass >= 1,
        1_000_000_000 * (l.mass + r.mass) <= magnitude(l.mass * l.velocity) + magnitude(r.mass
            * r.velocity),
    ensures
        1_000_000_000 * magnitude(
            momentum(after_collision(l, r).0, after_collision(l, r).1) - momentum(l, r),
        ) <= magnitude(l.mass * l.velocity) + magnitude(r.mass * r.velocity),
{
    lemma_collision_momentum(l, r);
}

/// Kinetic energy is kept to within one part in 10^9, once it is at least
/// `10^9 * (mL + mR) * (4 * (|vL| + |vR|) + 1)`, in the units of
/// `mass * velocity^2`.
pub proof fn lemma_collision_energy_relative(l: CubeModel, r: CubeModel)
    requires
        l.mass >= 1,
        r.mass >= 1,
        1_000_000_000 * ((l.mass + r.mass) * (4 * (magnitude(l.velocity) + magnitude(r.velocity))
            + 1)) <= energy(l, r),
    ensures
        energy(after_collision(l, r).0, after_collision(l, r).1) <= energy(l, r),
        1_000_000_000 * (energy(l, r) - energy(after_collision(l, r).0, after_collision(l, r).1))
            <= energy(l, r),
{
    lemma_collision_energy_kept(l, r);
    lemma_collision_speed_bound(l, r);
    let (m1, m2) = (l.mass, r.mass);
    let (a, b) = (magnitude(l.velocity), magnitude(r.velocity));
    let (p, q) = (magnitude(after_collision(l, r).0.velocity), magnitude(
        after_collision(l, r).1.velocity,
    ));
    assert(m1 * (2 * p + 1) + m2 * (2 * q + 1) <= (m1 + m2) * (4 * (a + b) + 1)) by (
    nonlinear_arith)
        requires m1 >= 1, m2 >= 1, 0 <= p <= a + 2 * b, 0 <= q <= b + 2 * a, a >= 0, b >= 0;
}

/// Colliding twice in a row undoes the first collision, up to rounding:
/// each block gets back its velocity to within 3 units, one part in 10^9
/// once `|vL| + |vR|` is at least `3 * 10^9` units.
pub proof fn lemma_collision_twice(l: CubeModel, r: CubeModel)
    requires
        l.mass >= 1,
        r.mass >= 1,
    ensures
        magnitude(
            after_collision(after_collision(l, r).0, after_collision(l, r).1).0.velocity
                - l.velocity,
        ) <= 3,
        magnitude(
            after_collision(after_collision(l, r).0, after_collision(l, r).1).1.velocity
                - r.velocity,
        ) <= 3,
{
    lemma_twice_component(l.mass, r.mass, l.velocity, r.velocity);
    lemma_twice_component(r.mass, l.mass, r.velocity, l.velocity);
}

proof fn lemma_twice_component(m1: int, m2: int, v1: int, v2: int)
    requires
        m1 >= 1,
        m2 >= 1,
    ensures
        magnitude(
            elastic_velocity(
                m1,
                m2,
                elastic_velocity(m1, m2, v1, v2),
                elastic_velocity(m2, m1, v2, v1),
            ) - v1,
        ) <= 3,
{
    let d = m1 + m2;
    let n1 = elastic_numerator(m1, m2, v1, v2);
    let n2 = elastic_numerator(m2, m1, v2, v1);
    let q1 = elastic_velocity(m1, m2, v1, v2);
    let q2 = elastic_velocity(m2, m1, v2, v1);
    let n3 = elastic_numerator(m1, m2, q1, q2);
    let s1 = elastic_velocity(m1, m2, q1, q2);
    lemma_div_toward_zero(n1, d);
    lemma_div_toward_zero(n2, d);
    lemma_div_toward_zero(n3, d);
    let r1 = n1 - q1 * d;
    let r2 = n2 - q2 * d;
    let r3 = n3 - s1 * d;
    lemma_numerators_shifted(m1, m2, v1, v2);
    let w = v2 - v1;
    assert((m1 - m2) * n1 + 2 * m2 * n2 == d * d * v1) by (nonlinear_arith)
        requires
            d == m1 + m2,
            n1 == d * v1 + 2 * m2 * w,
            n2 == d * v2 - 2 * m1 * w,
            w == v2 - v1;
    let big_r = (m1 - m2) * r1 + 2 * m2 * r2;
    assert(d * n3 == d * d * v1 - big_r) by (nonlinear_arith)
        requires
            n3 == (m1 - m2) * q1 + 2 * m2 * q2,
            n1 == q1 * d + r1,
            n2 == q2 * d + r2,
            (m1 - m2) * n1 + 2 * m2 * n2 == d * d * v1,
            big_r == (m1 - m2) * r1 + 2 * m2 * r2;
    assert(-3 * (d * d) < big_r < 3 * (d * d)) by (nonlinear_arith)
        requires
            big_r == (m1 - m2) * r1 + 2 * m2 * r2,
            m1 >= 1,
            m2 >= 1,
            d == m1 + m2,
            -d < r1 < d,
            -d < r2 < d;
    assert(d * d * (s1 - v1) == -big_r - d * r3) by (nonlinear_arith)
        requires
            n3 == s1 * d + r3,
            d * n3 == d * d * v1 - big_r;
    assert(-(d * d) < d * r3 < d * d) by (nonlinear_arith)
        requires d > 0, -d < r3 < d;
    assert(-4 < s1 - v1 < 4) by (nonlinear_arith)
        requires
            d > 0,
            -4 * (d * d) < d * d * (s1 - v1) < 4 * (d * d);
}

/// Blocks of equal mass swap their velocities exactly.
pub proof fn lemma_equal_masses_swap(l: CubeModel, r: CubeModel)
    requires
        l.mass >= 1,
        l.mass == r.mass,
    ensures
        after_collision(l, r).0.velocity == r.velocity,
        after_collision(l, r).1.velocity == l.velocity,
{
    let m = l.mass;
    assert(elastic_numerator(m, m, l.velocity, r.velocity) == (2 * m) * r.velocity) by (nonlinear_arith);
    assert(elastic_numerator(m, m, r.velocity, l.velocity) == (2 * m) * l.velocity) by (nonlinear_arith);
    lemma_exact_quotient(r.velocity, 2 * m);
    lemma_exact_quotient(l.velocity, 2 * m);
}

proof fn lemma_exact_quotient(v: int, d: int)
    requires
        d > 0,
    ensures
        div_toward_zero(d * v, d) == v,
{
    if v >= 0 {
        vstd::arithmetic::div_mod::lemma_div_multiples_vanish(v, d);
    } else {
        assert(-(d * v) == d * (-v)) by (nonlinear_arith);
        vstd::arithmetic::div_mod::lemma_div_multiples_vanish(-v, d);
    }
}

/// From `m >= 1` and `m * v^2 <= MAX_ENERGY`, `|v| <= 2^60`.
pub(crate) proof fn lemma_velocity_bound(m: int, v: int)
    requires
        1 <= m,
        double_kinetic(m, v) <= MAX_ENERGY,
    ensures
        -0x1000_0000_0000_0000 <= v <= 0x1000_0000_0000_0000,
{
    assert(v * v <= m * v * v) by (nonlinear_arith)
        requires 1 <= m;
    if v > 0x1000_0000_0000_0000 {
        assert(v * v > 0x1000_0000_0000_0000 * 0x1000_0000_0000_0000) by (nonlinear_arith)
            requires v > 0x1000_0000_0000_0000;
    }
    if v < -0x1000_0000_0000_0000 {
        assert(v * v > 0x1000_0000_0000_0000 * 0x1000_0000_0000_0000) by (nonlinear_arith)
            requires v < -0x1000_0000_0000_0000;
    }
}

/// For `m > 0` and `e >= 0`: `m * e <= b` exactly when `e <= b / m`.
proof fn lemma_mul_le_iff_le_div(m: int, e: int, b: int)
    requires
        m > 0,
        b >= 0,
    ensures
        (m * e <= b) <==> (e <= b / m),
{
    let q = b / m;
    let r = b % m;
    assert(b == m * q + r && 0 <= r < m) by {
        vstd::arithmetic::div_mod::lemma_fundamental_div_mod(b, m);
    }
    if e <= q {
        assert(m * e <= m * q) by (nonlinear_arith)
            requires m > 0, e <= q;
    } else {
        assert(m * e >= m * q + m) by (nonlinear_arith)
            requires m > 0, e >= q + 1;
    }
}

} // verus!
