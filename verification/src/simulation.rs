use vstd::prelude::*;
use crate::triangulation;
use crate::triangulation::Triangle;
use crate::triangulation::TriangulationPoint;
use vstd::arithmetic::div_mod::lemma_div_is_ordered;
use vstd::arithmetic::div_mod::lemma_div_multiples_vanish;
use vstd::arithmetic::div_mod::lemma_div_pos_is_pos;

verus! {

/// Fixed-point scale shared by coordinates, speeds and times: `UNIT` raw
/// steps are one unit of length, or one second.
pub const UNIT: i64 = 65536;

/// Largest magnitude accepted for a settings mean or variance; keeps every
/// sampled speed and retarget interval far inside `i64`.
pub const SETTING_LIMIT: i64 = 1099511627776;

/// Retarget-timer sentinel for static points: never reached in any realistic
/// run, and harmless if it were (a static point's speed stays zero).
pub const STATIC_TIMER: i64 = i64::MAX;

/// Largest fixed-point frame increment: one whole second, the increment a
/// framerate of one frame per second gives.
pub const DELTA_LIMIT: i64 = 4294967296;

/// Catch-up cap: at most this many discrete steps run in one `tick` call.
pub const MAX_FRAMES: u32 = 10;

/// A 2D vector of fixed-point coordinates.
#[derive(Debug, Clone, Copy, PartialEq, Eq, Structural)]
pub struct Vec2 {
    pub x: i64,
    pub y: i64,
}

/// Division that truncates towards zero, as the machine's signed division
/// does; defined for positive divisors.
pub open spec fn tdiv(p: int, q: int) -> int {
    if p >= 0 {
        p / q
    } else {
        -((-p) / q)
    }
}

/// Truncating towards zero keeps a quotient inside any bound the numerator
/// respects q times over.
proof fn lemma_tdiv_range(p: int, q: int, b: int)
    requires
        q > 0,
        b >= 0,
        -(b * q) <= p <= b * q,
    ensures
        -b <= tdiv(p, q) <= b,
{
    lemma_div_multiples_vanish(b, q);
    assert((q * b) / q == b);
    assert(b * q == q * b) by (nonlinear_arith);
    if p >= 0 {
        lemma_div_pos_is_pos(p, q);
        lemma_div_is_ordered(p, b * q, q);
    } else {
        lemma_div_pos_is_pos(-p, q);
        lemma_div_is_ordered(-p, b * q, q);
    }
}

/// Exact truncating division on wide integers.
fn tdiv_i128(p: i128, q: i128) -> (r: i128)
    requires
        0 < q,
        -170141183460469231731687303715884105727 <= p,
    ensures
        r as int == tdiv(p as int, q as int),
{
    if p >= 0 {
        ((p as u128) / (q as u128)) as i128
    } else {
        proof {
            lemma_div_pos_is_pos((-p) as int, q as int);
            lemma_div_is_ordered(0, (-p) as int, q as int);
            vstd::arithmetic::div_mod::lemma_div_nonincreasing((-p) as int, q as int);
        }
        -((((-p) as u128) / (q as u128)) as i128)
    }
}

/// Relies on rand::random: an independently drawn u32; nothing can be
/// promised of a random value, so nothing is.
#[verifier::external_body]
fn random_u32() -> (r: u32) {
    rand::random::<u32>()
}

/// A mean with a symmetric random variance.
#[derive(Debug, Clone, Copy)]
pub struct VariedValue {
    pub value: i64,
    pub variance: i64,
}

/// A settings pair within the magnitude the simulation accepts.
pub open spec fn varied_wf(v: VariedValue) -> bool {
    &&& -SETTING_LIMIT <= v.value <= SETTING_LIMIT
    &&& -SETTING_LIMIT <= v.variance <= SETTING_LIMIT
}

/// The sample a uniform fixed-point draw u in [0, UNIT) produces:
/// mean + variance * (u / UNIT - 1/2), in fixed point.
pub open spec fn sample_of(v: VariedValue, u: int) -> int {
    v.value + tdiv(v.variance * (u - UNIT / 2), UNIT as int)
}

/// Whether r is a sample this settings pair can produce.
pub open spec fn sampled_from(v: VariedValue, r: int) -> bool {
    exists|u: int| 0 <= u < UNIT && r == sample_of(v, u)
}

impl VariedValue {
    fn new(value: i64, variance: i64) -> (r: Self)
        ensures
            r.value == value,
            r.variance == variance,
    {
        Self { value, variance }
    }

    /// One random sample: the mean offset by the variance scaled with a
    /// uniform draw centred on zero.
    fn compute_random(&self) -> (r: i64)
        requires
            varied_wf(*self),
        ensures
            sampled_from(*self, r as int),
            -2 * SETTING_LIMIT <= r <= 2 * SETTING_LIMIT,
    {
        let raw: u32 = random_u32();
        let u: i64 = (raw % 65536) as i64;
        proof {
            crate::triangulation::lemma_mul_bounds(
                self.variance as int,
                u - 32768,
                SETTING_LIMIT as int,
                32768,
            );
        }
        let off = self.variance as i128 * (u - 32768) as i128;
        proof {
            lemma_tdiv_range(off as int, UNIT as int, SETTING_LIMIT as int);
        }
        let scaled = tdiv_i128(off, UNIT as i128) as i64;
        let r = self.value + scaled;
        proof {
            assert(r == sample_of(*self, u as int));
        }
        r
    }
}

/// A quarter turn less a sliver, in the fixed-point angle scale: the heading
/// draw covers angles within a quarter turn either side of straight down the
/// y axis, i.e. the eighth-to-three-eighths turn band of the full circle.
pub const PHI_QUARTER: i64 = 51472;

/// Fixed-point sine of a small angle t (|t| at most an eighth of a turn),
/// by the cubic series term: t - t^3 / (6 * UNIT^2).
pub open spec fn sin_fp(t: int) -> int {
    t - tdiv(t * t * t, 25769803776)
}

/// Fixed-point cosine of a small angle t, by the quartic series:
/// UNIT - t^2 / (2 * UNIT) + t^4 / (24 * UNIT^3).
pub open spec fn cos_fp(t: int) -> int {
    UNIT - tdiv(t * t, 131072) + tdiv((t * t) * (t * t), 6755399441055744)
}

/// The heading a raw random draw u produces: an angle phi uniform within a
/// quarter turn either side of straight down, then the unit vector
/// (-sin phi, -cos phi). The y component is always negative: the restricted
/// angle band is a deliberate visual bias, not a full uniform direction.
pub open spec fn heading_of(u: int) -> (int, int) {
    let phi = u % (2 * PHI_QUARTER) - PHI_QUARTER;
    (-sin_fp(phi), -cos_fp(phi))
}

/// A freshly drawn heading: some draw's `heading_of`, with both components
/// within twice the fixed-point unit and the y component strictly downward.
fn random_heading() -> (dir: Vec2)
    ensures
        exists|u: int|
            0 <= u < 4294967296 && dir.x as int == heading_of(u).0 && dir.y as int == heading_of(
                u,
            ).1,
        -2 * UNIT <= dir.x <= 2 * UNIT,
        -2 * UNIT <= dir.y < 0,
{
    let raw: u32 = random_u32();
    let phi: i64 = ((raw % 102944) as i64) - 51472;
    let t = phi as i128;
    proof {
        crate::triangulation::lemma_mul_bounds(t as int, t as int, 51472, 51472);
    }
    let t2 = t * t;
    proof {
        crate::triangulation::lemma_mul_bounds(t2 as int, t as int, 2649366784, 51472);
        crate::triangulation::lemma_mul_bounds(t2 as int, t2 as int, 2649366784, 2649366784);
    }
    let t3 = t2 * t;
    let t4 = t2 * t2;
    proof {
        lemma_tdiv_range(t3 as int, 25769803776, 5292);
        lemma_tdiv_range(t2 as int, 131072, 20214);
        lemma_tdiv_range(t4 as int, 6755399441055744, 1040);
    }
    let s = t - tdiv_i128(t3, 25769803776);
    let c = 65536 - tdiv_i128(t2, 131072) + tdiv_i128(t4, 6755399441055744);
    let dir = Vec2 { x: (-s) as i64, y: (-c) as i64 };
    proof {
        assert(dir.x as int == heading_of(raw as int).0 && dir.y as int == heading_of(
            raw as int,
        ).1);
    }
    dir
}

/// A freshly drawn render radius, uniform over [1/2, 3/2) units.
fn random_point_size() -> (r: i64)
    ensures
        UNIT / 2 <= r < UNIT + UNIT / 2,
{
    let raw: u32 = random_u32();
    ((raw % 65536) as i64) + 32768
}

/// The two varied values the simulation is parameterized with: per-point
/// speed, and the interval between heading re-samples.
#[derive(Debug, Clone, Copy)]
pub struct SimulationSettings {
    pub point_speed: VariedValue,
    pub point_time: VariedValue,
}

/// Settings whose four magnitudes the simulation accepts.
pub open spec fn settings_wf(s: SimulationSettings) -> bool {
    varied_wf(s.point_speed) && varied_wf(s.point_time)
}

impl SimulationSettings {
    pub fn new(point_speed: i64, point_speed_variance: i64, point_time: i64, point_time_variance: i64) -> (r: Self)
        requires
            -SETTING_LIMIT <= point_speed <= SETTING_LIMIT,
            -SETTING_LIMIT <= point_speed_variance <= SETTING_LIMIT,
            -SETTING_LIMIT <= point_time <= SETTING_LIMIT,
            -SETTING_LIMIT <= point_time_variance <= SETTING_LIMIT,
        ensures
            r.point_speed.value == point_speed,
            r.point_speed.variance == point_speed_variance,
            r.point_time.value == point_time,
            r.point_time.variance == point_time_variance,
            settings_wf(r),
    {
        Self {
            point_speed: VariedValue::new(point_speed, point_speed_variance),
            point_time: VariedValue::new(point_time, point_time_variance),
        }
    }
}

/// One simulated particle.
#[derive(Debug, Clone, Copy)]
pub struct Point {
    /// Current position, wrapped into the domain as the point moves.
    pub position: Vec2,
    /// Fixed render radius, assigned at creation.
    pub size: i64,
    /// Scalar speed; zero for static points.
    pub speed: i64,
    /// Fixed-point seconds until the next heading re-sample.
    pub dir_timer: i64,
    /// Unit heading vector (approximately unit, in fixed point).
    pub dir: Vec2,
}

/// The field bounds every point of a well-formed simulation keeps.
pub open spec fn point_wf(p: Point) -> bool {
    &&& -2 * UNIT <= p.dir.x <= 2 * UNIT
    &&& -2 * UNIT <= p.dir.y <= 2 * UNIT
    &&& -2 * SETTING_LIMIT <= p.speed <= 2 * SETTING_LIMIT
    &&& p.dir_timer >= -2 * SETTING_LIMIT
}

impl TriangulationPoint for Point {
    open spec fn sx(&self) -> int {
        self.position.x as int
    }

    open spec fn sy(&self) -> int {
        self.position.y as int
    }

    fn x(&self) -> (r: i64) {
        self.position.x
    }

    fn y(&self) -> (r: i64) {
        self.position.y
    }
}

impl Point {
    /// Build a point field by field, within the simulation's bounds.
    pub fn new(x: i64, y: i64, size: i64, speed: i64, dir_x: i64, dir_y: i64, dir_timer: i64) -> (p: Point)
        requires
            -2 * UNIT <= dir_x <= 2 * UNIT,
            -2 * UNIT <= dir_y <= 2 * UNIT,
            -2 * SETTING_LIMIT <= speed <= 2 * SETTING_LIMIT,
            dir_timer >= -2 * SETTING_LIMIT,
        ensures
            p.position == (Vec2 { x, y }),
            p.size == size,
            p.speed == speed,
            p.dir == (Vec2 { x: dir_x, y: dir_y }),
            p.dir_timer == dir_timer,
            point_wf(p),
    {
        Point {
            position: Vec2 { x, y },
            size,
            speed,
            dir_timer,
            dir: Vec2 { x: dir_x, y: dir_y },
        }
    }
}

/// An integer squeezed into the machine's signed 64-bit range.
pub open spec fn clamp_i64(v: int) -> int {
    if v < i64::MIN as int {
        i64::MIN as int
    } else if v > i64::MAX as int {
        i64::MAX as int
    } else {
        v
    }
}

/// One coordinate of a motion step: advance by heading times speed times
/// delta (descaled), wrap once around the domain extent, and squeeze into
/// the machine range.
pub open spec fn step_coord(pos: int, dir: int, speed: int, delta: int, extent: int) -> int {
    let moved = pos + tdiv((dir * speed) * delta, 4294967296);
    let wrapped = if moved < 0 {
        moved + extent
    } else if moved > extent {
        moved - extent
    } else {
        moved
    };
    clamp_i64(wrapped)
}

/// How one motion step relates a point q to its prior state p: the position
/// advances deterministically; the heading and timer either count down or,
/// once the timer runs out, are re-sampled.
pub open spec fn point_stepped(p: Point, q: Point, s: SimulationSettings, delta: int, w: int, h: int) -> bool {
    &&& q.position.x as int == step_coord(p.position.x as int, p.dir.x as int, p.speed as int, delta, w)
    &&& q.position.y as int == step_coord(p.position.y as int, p.dir.y as int, p.speed as int, delta, h)
    &&& q.speed == p.speed
    &&& q.size == p.size
    &&& (p.dir_timer - delta > 0 ==> q.dir == p.dir && q.dir_timer as int == p.dir_timer - delta)
    &&& (p.dir_timer - delta <= 0 ==> {
        &&& (exists|u: int|
            0 <= u < 4294967296 && q.dir.x as int == heading_of(u).0 && q.dir.y as int
                == heading_of(u).1)
        &&& sampled_from(s.point_time, q.dir_timer as int)
        &&& -2 * UNIT <= q.dir.x <= 2 * UNIT
        &&& -2 * UNIT <= q.dir.y < 0
    })
}

/// One coordinate of the motion step, executably.
fn step_coord_exec(pos: i64, dir: i64, speed: i64, delta: i64, extent: i64) -> (r: i64)
    requires
        -2 * UNIT <= dir <= 2 * UNIT,
        -2 * SETTING_LIMIT <= speed <= 2 * SETTING_LIMIT,
        0 <= delta <= DELTA_LIMIT,
        0 <= extent <= triangulation::COORD_LIMIT,
    ensures
        r as int == step_coord(pos as int, dir as int, speed as int, delta as int, extent as int),
{
    proof {
        crate::triangulation::lemma_mul_bounds(dir as int, speed as int, 131072, 2199023255552);
        assert(-288230376151711744 <= dir as int * speed as int <= 288230376151711744);
    }
    let dw = dir as i128 * speed as i128;
    proof {
        crate::triangulation::lemma_mul_bounds(
            dw as int,
            delta as int,
            288230376151711744,
            DELTA_LIMIT as int,
        );
    }
    let prod = dw * delta as i128;
    proof {
        lemma_tdiv_range(prod as int, 4294967296, 288230376151711744);
    }
    let step = tdiv_i128(prod, 4294967296);
    let moved = pos as i128 + step;
    let wrapped = if moved < 0 {
        moved + extent as i128
    } else if moved > extent as i128 {
        moved - extent as i128
    } else {
        moved
    };
    if wrapped < -9223372036854775808i128 {
        i64::MIN
    } else if wrapped > 9223372036854775807i128 {
        i64::MAX
    } else {
        wrapped as i64
    }
}

/// A point about to leave the domain on one axis wraps to the other side:
/// if its step carries the coordinate past the extent, the new coordinate is
/// exactly the overshoot past zero, prior coordinate plus step minus extent;
/// the other axis and the heading play no part in the wrap.
pub proof fn lemma_wrap_around(pos: int, dir: int, speed: int, delta: int, extent: int)
    requires
        0 <= extent,
        extent < pos + tdiv((dir * speed) * delta, 4294967296),
        pos + tdiv((dir * speed) * delta, 4294967296) <= i64::MAX as int,
    ensures
        step_coord(pos, dir, speed, delta, extent) == pos + tdiv(
            (dir * speed) * delta,
            4294967296,
        ) - extent,
{
}

/// A static point (zero speed) that sits inside the domain keeps its exact
/// position through any motion step.
pub proof fn lemma_static_point_fixed(pos: int, dir: int, delta: int, extent: int)
    requires
        0 <= pos <= extent,
        extent <= triangulation::COORD_LIMIT as int,
        pos <= i64::MAX as int,
    ensures
        step_coord(pos, dir, 0, delta, extent) == pos,
{
    assert(dir * 0 == 0) by (nonlinear_arith);
    assert((dir * 0) * delta == 0) by (nonlinear_arith);
    assert(tdiv(0, 4294967296) == 0);
}

/// The fixed step length a framerate gives: 1 / framerate in fixed point.
pub open spec fn frame_increment_of(framerate: int) -> int {
    4294967296int / framerate
}

/// How many discrete steps one tick call runs, given the accumulated lag
/// diff and the frame increment: the full catch-up count, capped at
/// MAX_FRAMES; excess lag beyond the cap is dropped, not deferred.
pub open spec fn num_steps(diff: int, inc: int) -> int {
    if inc <= 0 {
        if diff >= 0 {
            MAX_FRAMES as int
        } else {
            0
        }
    } else if diff < inc {
        0
    } else if diff / inc < MAX_FRAMES {
        diff / inc
    } else {
        MAX_FRAMES as int
    }
}

/// Whether the stored triangle list is the triangulation of the stored
/// points: their exact Bowyer-Watson triangulation when every coordinate is
/// in the exact-arithmetic range, and empty otherwise (the explicit
/// degenerate outcome for out-of-range geometry).
pub open spec fn triangles_fresh(s: Simulation) -> bool {
    if triangulation::coords_bounded(triangulation::coords_of(s.points@)) {
        s.triangles@ == triangulation::spec_triangulate(triangulation::coords_of(s.points@))
    } else {
        s.triangles@ == Seq::<Triangle>::empty()
    }
}

/// The whole animated system: domain, clock accumulator, settings, the live
/// points, and the triangle list re-derived from them each discrete step.
pub struct Simulation {
    pub width: i64,
    pub height: i64,
    pub framerate: i64,
    pub last_tick: i64,
    pub current_tick: i64,
    pub settings: SimulationSettings,
    pub points: Vec<Point>,
    pub triangles: Vec<Triangle>,
}

impl Simulation {
    /// The bounds construction establishes and every operation keeps.
    pub open spec fn wf(&self) -> bool {
        &&& 1 <= self.framerate
        &&& 0 <= self.width <= triangulation::COORD_LIMIT
        &&& 0 <= self.height <= triangulation::COORD_LIMIT
        &&& settings_wf(self.settings)
        &&& forall|i: int| 0 <= i < self.points@.len() ==> point_wf(#[trigger] self.points@[i])
    }

    pub fn new(width: i64, height: i64, framerate: i64, settings: SimulationSettings) -> (s: Simulation)
        requires
            0 <= width <= triangulation::COORD_LIMIT,
            0 <= height <= triangulation::COORD_LIMIT,
            1 <= framerate,
            settings_wf(settings),
        ensures
            s.width == width,
            s.height == height,
            s.framerate == framerate,
            s.settings == settings,
            s.last_tick == 0,
            s.current_tick == 0,
            s.points@ =~= Seq::<Point>::empty(),
            s.triangles@ =~= Seq::<Triangle>::empty(),
            s.wf(),
    {
        Simulation {
            width,
            height,
            framerate,
            last_tick: 0,
            current_tick: 0,
            settings,
            points: Vec::new(),
            triangles: Vec::new(),
        }
    }

    /// Append a moving point at (x, y): random render size, speed and
    /// retarget interval sampled from the settings, and a random heading.
    pub fn add_point(&mut self, x: i64, y: i64)
        requires
            old(self).wf(),
        ensures
            final(self).wf(),
            final(self).points@.len() == old(self).points@.len() + 1,
            final(self).points@.drop_last() == old(self).points@,
            ({
                let p = final(self).points@.last();
                &&& p.position == (Vec2 { x, y })
                &&& UNIT / 2 <= p.size < UNIT + UNIT / 2
                &&& sampled_from(old(self).settings.point_speed, p.speed as int)
                &&& sampled_from(old(self).settings.point_time, p.dir_timer as int)
                &&& (exists|u: int|
                    0 <= u < 4294967296 && p.dir.x as int == heading_of(u).0 && p.dir.y as int
                        == heading_of(u).1)
            }),
            final(self).width == old(self).width,
            final(self).height == old(self).height,
            final(self).framerate == old(self).framerate,
            final(self).settings == old(self).settings,
            final(self).last_tick == old(self).last_tick,
            final(self).current_tick == old(self).current_tick,
            final(self).triangles == old(self).triangles,
    {
        let p = Point {
            position: Vec2 { x, y },
            size: random_point_size(),
            speed: self.settings.point_speed.compute_random(),
            dir_timer: self.settings.point_time.compute_random(),
            dir: random_heading(),
        };
        self.points.push(p);
        proof {
            assert(final(self).points@.drop_last() =~= old(self).points@);
        }
    }

    /// Append a static anchor at (x, y): zero speed, zero heading, and a
    /// sentinel timer; it takes part in triangulation but never moves.
    pub fn add_static_point(&mut self, x: i64, y: i64)
        requires
            old(self).wf(),
        ensures
            final(self).wf(),
            final(self).points@.len() == old(self).points@.len() + 1,
            final(self).points@.drop_last() == old(self).points@,
            ({
                let p = final(self).points@.last();
                &&& p.position == (Vec2 { x, y })
                &&& UNIT / 2 <= p.size < UNIT + UNIT / 2
                &&& p.speed == 0
                &&& p.dir_timer == STATIC_TIMER
                &&& p.dir == (Vec2 { x: 0, y: 0 })
            }),
            final(self).width == old(self).width,
            final(self).height == old(self).height,
            final(self).framerate == old(self).framerate,
            final(self).settings == old(self).settings,
            final(self).last_tick == old(self).last_tick,
            final(self).current_tick == old(self).current_tick,
            final(self).triangles == old(self).triangles,
    {
        let p = Point {
            position: Vec2 { x, y },
            size: random_point_size(),
            speed: 0,
            dir_timer: STATIC_TIMER,
            dir: Vec2 { x: 0, y: 0 },
        };
        self.points.push(p);
        proof {
            assert(final(self).points@.drop_last() =~= old(self).points@);
        }
    }

    /// One motion pass: every point advances by one fixed step, wraps around
    /// the domain, counts its retarget timer down and, when the timer runs
    /// out, draws a fresh heading and interval.
    pub fn update_points(&mut self, delta: i64)
        requires
            old(self).wf(),
            0 <= delta <= DELTA_LIMIT,
        ensures
            final(self).wf(),
            final(self).points@.len() == old(self).points@.len(),
            forall|i: int|
                0 <= i < old(self).points@.len() ==> point_stepped(
                    old(self).points@[i],
                    #[trigger] final(self).points@[i],
                    old(self).settings,
                    delta as int,
                    old(self).width as int,
                    old(self).height as int,
                ),
            final(self).width == old(self).width,
            final(self).height == old(self).height,
            final(self).framerate == old(self).framerate,
            final(self).settings == old(self).settings,
            final(self).last_tick == old(self).last_tick,
            final(self).current_tick == old(self).current_tick,
            final(self).triangles == old(self).triangles,
    {
        let mut out: Vec<Point> = Vec::new();
        let mut i: usize = 0;
        while i < self.points.len()
            invariant
                *self == *old(self),
                self.wf(),
                0 <= delta <= DELTA_LIMIT,
                i <= self.points@.len(),
                out@.len() == i,
                forall|j: int|
                    0 <= j < i ==> point_stepped(
                        self.points@[j],
                        #[trigger] out@[j],
                        self.settings,
                        delta as int,
                        self.width as int,
                        self.height as int,
                    ),
                forall|j: int| 0 <= j < i ==> point_wf(#[trigger] out@[j]),
            decreases self.points@.len() - i,
        {
            let p = self.points[i];
            let nx = step_coord_exec(p.position.x, p.dir.x, p.speed, delta, self.width);
            let ny = step_coord_exec(p.position.y, p.dir.y, p.speed, delta, self.height);
            let timer = p.dir_timer - delta;
            let q = if timer <= 0 {
                let nd = random_heading();
                let nt = self.settings.point_time.compute_random();
                Point {
                    position: Vec2 { x: nx, y: ny },
                    size: p.size,
                    speed: p.speed,
                    dir_timer: nt,
                    dir: nd,
                }
            } else {
                Point {
                    position: Vec2 { x: nx, y: ny },
                    size: p.size,
                    speed: p.speed,
                    dir_timer: timer,
                    dir: p.dir,
                }
            };
            out.push(q);
            i += 1;
        }
        self.points = out;
    }

    /// Discard the stored triangle list and re-derive it from the current
    /// points: their exact triangulation when every coordinate is in range,
    /// and the empty list as the explicit degenerate outcome otherwise.
    fn triangulate(&mut self)
        requires
            old(self).wf(),
            old(self).points@.len() + 3 <= usize::MAX,
        ensures
            final(self).wf(),
            triangles_fresh(*final(self)),
            final(self).points == old(self).points,
            final(self).width == old(self).width,
            final(self).height == old(self).height,
            final(self).framerate == old(self).framerate,
            final(self).settings == old(self).settings,
            final(self).last_tick == old(self).last_tick,
            final(self).current_tick == old(self).current_tick,
    {
        let mut ok = true;
        let mut i: usize = 0;
        while i < self.points.len()
            invariant
                *self == *old(self),
                i <= self.points@.len(),
                ok == forall|j: int|
                    0 <= j < i ==> -triangulation::COORD_LIMIT <= (#[trigger] self.points@[j]).position.x
                        <= triangulation::COORD_LIMIT && -triangulation::COORD_LIMIT
                        <= self.points@[j].position.y <= triangulation::COORD_LIMIT,
            decreases self.points@.len() - i,
        {
            let p = &self.points[i];
            let x = p.x();
            let y = p.y();
            if !(-268435456 <= x && x <= 268435456 && -268435456 <= y && y <= 268435456) {
                ok = false;
            }
            i += 1;
        }
        proof {
            let cs = triangulation::coords_of(self.points@);
            if ok {
                assert forall|j: int| 0 <= j < cs.len() implies (#[trigger] cs[j]).0
                    <= triangulation::COORD_LIMIT && cs[j].0 >= -triangulation::COORD_LIMIT && cs[j].1
                    <= triangulation::COORD_LIMIT && cs[j].1 >= -triangulation::COORD_LIMIT by {
                    assert(-triangulation::COORD_LIMIT <= self.points@[j].position.x
                        <= triangulation::COORD_LIMIT);
                    assert(-triangulation::COORD_LIMIT <= self.points@[j].position.y
                        <= triangulation::COORD_LIMIT);
                }
                assert(triangulation::coords_bounded(cs));
            } else {
                let j = choose|j: int|
                    0 <= j < self.points@.len() && !(-triangulation::COORD_LIMIT <= (
                    #[trigger] self.points@[j]).position.x <= triangulation::COORD_LIMIT
                        && -triangulation::COORD_LIMIT <= self.points@[j].position.y
                        <= triangulation::COORD_LIMIT);
                assert(cs[j].0 == self.points@[j].position.x && cs[j].1 == self.points@[j].position.y);
                assert(!triangulation::coords_bounded(cs));
            }
        }
        if ok {
            let tris = triangulation::triangulate(&self.points);
            self.triangles = tris;
        } else {
            self.triangles = Vec::new();
            proof {
                assert(final(self).triangles@ =~= Seq::<Triangle>::empty());
            }
        }
    }

    /// Advance real time by delta and run the fixed-timestep loop: while a
    /// whole frame increment of lag remains, and fewer than MAX_FRAMES steps
    /// have run in this call, move every point one step and re-triangulate.
    /// A static in-domain point never changes position, and after any step
    /// the stored triangles are exactly the triangulation of the stored
    /// points.
    pub fn tick(&mut self, delta: i64)
        requires
            old(self).wf(),
            old(self).points@.len() + 3 <= usize::MAX,
        ensures
            final(self).wf(),
            final(self).current_tick as int == clamp_i64(old(self).current_tick + delta),
            ({
                let inc = frame_increment_of(old(self).framerate as int);
                let diff = clamp_i64(old(self).current_tick + delta) - old(self).last_tick;
                let steps = num_steps(diff, inc);
                &&& final(self).last_tick == old(self).last_tick + steps * inc
                &&& 0 <= steps <= MAX_FRAMES
                &&& (steps > 0 ==> triangles_fresh(*final(self)))
                &&& (steps == 0 ==> final(self).points == old(self).points && final(self).triangles
                    == old(self).triangles)
            }),
            final(self).points@.len() == old(self).points@.len(),
            forall|i: int|
                0 <= i < old(self).points@.len() ==> {
                    let p = #[trigger] old(self).points@[i];
                    (p.speed == 0 && 0 <= p.position.x <= old(self).width && 0 <= p.position.y
                        <= old(self).height) ==> final(self).points@[i].position == p.position
                        && final(self).points@[i].speed == 0
                },
            final(self).width == old(self).width,
            final(self).height == old(self).height,
            final(self).framerate == old(self).framerate,
            final(self).settings == old(self).settings,
    {
        let wide = self.current_tick as i128 + delta as i128;
        let new_current: i64 = if wide < -9223372036854775808i128 {
            i64::MIN
        } else if wide > 9223372036854775807i128 {
            i64::MAX
        } else {
            wide as i64
        };
        self.current_tick = new_current;
        let inc: i64 = (4294967296u64 / (self.framerate as u64)) as i64;
        proof {
            vstd::arithmetic::div_mod::lemma_div_nonincreasing(4294967296, self.framerate as int);
            lemma_div_pos_is_pos(4294967296, self.framerate as int);
        }
        let ghost diff0: int = new_current - old(self).last_tick;
        let mut frames: u32 = 0;
        while frames < MAX_FRAMES && (self.current_tick as i128 - self.last_tick as i128) >= inc as i128
            invariant
                frames <= MAX_FRAMES,
                self.wf(),
                self.width == old(self).width,
                self.height == old(self).height,
                self.framerate == old(self).framerate,
                self.settings == old(self).settings,
                self.current_tick == new_current,
                0 <= inc <= DELTA_LIMIT,
                inc as int == frame_increment_of(old(self).framerate as int),
                diff0 == new_current - old(self).last_tick,
                self.last_tick == old(self).last_tick + frames * inc,
                frames > 0 ==> diff0 >= frames * inc,
                self.points@.len() == old(self).points@.len(),
                self.points@.len() + 3 <= usize::MAX,
                forall|i: int|
                    0 <= i < old(self).points@.len() ==> {
                        let p = #[trigger] old(self).points@[i];
                        (p.speed == 0 && 0 <= p.position.x <= old(self).width && 0 <= p.position.y
                            <= old(self).height) ==> self.points@[i].position == p.position
                            && self.points@[i].speed == 0
                    },
                frames > 0 ==> triangles_fresh(*self),
                frames == 0 ==> self.points == old(self).points && self.triangles == old(
                    self,
                ).triangles,
            decreases MAX_FRAMES - frames,
        {
            proof {
                assert(self.last_tick + inc <= new_current);
                let f0 = frames as int;
                let inc_i = inc as int;
                assert((f0 + 1) * inc_i == f0 * inc_i + inc_i) by (nonlinear_arith);
            }
            self.last_tick = self.last_tick + inc;
            frames = frames + 1;
            let ghost before = self.points@;
            self.update_points(inc);
            self.triangulate();
            proof {
                assert forall|i: int|
                    0 <= i < old(self).points@.len() && ({
                        let p = old(self).points@[i];
                        p.speed == 0 && 0 <= p.position.x <= old(self).width && 0 <= p.position.y
                            <= old(self).height
                    }) implies #[trigger] self.points@[i].position == old(self).points@[i].position
                    && self.points@[i].speed == 0 by {
                    let p = old(self).points@[i];
                    assert(point_stepped(
                        before[i],
                        self.points@[i],
                        old(self).settings,
                        inc as int,
                        old(self).width as int,
                        old(self).height as int,
                    ));
                    lemma_static_point_fixed(
                        p.position.x as int,
                        before[i].dir.x as int,
                        inc as int,
                        old(self).width as int,
                    );
                    lemma_static_point_fixed(
                        p.position.y as int,
                        before[i].dir.y as int,
                        inc as int,
                        old(self).height as int,
                    );
                }
            }
        }
        proof {
            let inc_i = inc as int;
            let steps = num_steps(diff0, inc_i);
            if frames < MAX_FRAMES {
                assert(new_current - self.last_tick < inc_i);
                if inc_i > 0 {
                    if frames == 0 {
                        assert(diff0 < inc_i);
                    } else {
                        assert(frames * inc_i >= inc_i) by (nonlinear_arith)
                            requires frames >= 1 && inc_i > 0;
                        assert(inc_i * (frames as int) + (diff0 - frames * inc_i) == diff0)
                            by (nonlinear_arith);
                        vstd::arithmetic::div_mod::lemma_div_multiples_vanish_fancy(
                            frames as int,
                            diff0 - frames * inc_i,
                            inc_i,
                        );
                        assert(diff0 / inc_i == frames as int);
                    }
                } else {
                    assert(inc_i == 0);
                    assert(frames == 0);
                    assert(diff0 < 0);
                }
            } else {
                if inc_i > 0 {
                    assert(diff0 >= MAX_FRAMES * inc_i);
                    assert(MAX_FRAMES * inc_i >= inc_i) by (nonlinear_arith)
                        requires inc_i > 0;
                    lemma_div_is_ordered(MAX_FRAMES * inc_i, diff0, inc_i);
                    lemma_div_multiples_vanish(MAX_FRAMES as int, inc_i);
                    assert(MAX_FRAMES * inc_i == inc_i * MAX_FRAMES) by (nonlinear_arith);
                    assert(diff0 / inc_i >= MAX_FRAMES);
                } else {
                    assert(diff0 >= 0);
                }
            }
            assert(frames as int == steps);
        }
    }
}

} // verus!
