//! Rays that leave a camera.
use vstd::prelude::*;
use crate::accel::bvh::Ray;
use crate::arith::{blend, cross, minus, unit, Arith, ArithRules};
use crate::emitters::HALF_KEY;
use crate::microfacet::{PI_KEY, TWO_KEY};
use crate::pcg32::{Pcg32, Stream};
use crate::scalar::{Point3, Scalar};
use crate::scene::{Camera, Transform, Vec4};

verus! {

/// Key of the degrees in half a turn.
pub const HALF_TURN_KEY: i32 = 0x4334_0000;

impl Vec4 {
    /// A direction as a column of a transform.
    #[verifier::allow_in_spec]
    pub fn of_direction(d: Point3) -> Vec4
        returns
            (Vec4 { x: d.x, y: d.y, z: d.z, w: Scalar::zero() }),
    {
        Vec4 { x: d.x, y: d.y, z: d.z, w: Scalar::zero() }
    }

    /// A place as a column of a transform.
    #[verifier::allow_in_spec]
    pub fn of_place(p: Point3) -> Vec4
        returns
            (Vec4 { x: p.x, y: p.y, z: p.z, w: Scalar::one() }),
    {
        Vec4 { x: p.x, y: p.y, z: p.z, w: Scalar::one() }
    }
}

impl ArithRules {
    /// The transform from a camera's own axes to the world: it looks down its third
    /// axis, backward, and its first is level.
    pub open spec fn camera_to_world(self, camera: Camera) -> Transform {
        let cam_z = self.unit(self.minus(camera.position, camera.target));
        let up = Point3 { x: Scalar::zero(), y: Scalar::one(), z: Scalar::zero() };
        let cam_x = self.unit(self.cross(up, cam_z));
        let cam_y = self.cross(cam_z, cam_x);
        Transform {
            x: Vec4::of_direction(cam_x),
            y: Vec4::of_direction(cam_y),
            z: Vec4::of_direction(cam_z),
            w: Vec4::of_place(camera.position),
        }
    }

    /// Where a point of a row or column of pixels lies on the screen, from -1 to 1.
    pub open spec fn screen(self, x: Scalar, jitter: Scalar, size: Scalar) -> Scalar {
        self.difference(self.quotient(self.product(Scalar { key: TWO_KEY }, self.sum(x, jitter)), size), Scalar::one())
    }

    /// Half the height of the screen at unit distance.
    pub open spec fn half_screen(self, fov: Scalar) -> Scalar {
        let radians = self.quotient(self.product(fov, Scalar { key: PI_KEY }), Scalar { key: HALF_TURN_KEY });
        self.slope(self.product(radians, Scalar { key: HALF_KEY }))
    }

    /// The ray through a point of a pixel.
    pub open spec fn camera_ray(self, cam2world: Transform, fov: Scalar, width: usize, height: usize, x: Scalar, y: Scalar, jitter_x: Scalar, jitter_y: Scalar) -> Ray {
        let w = self.of_count(width);
        let h = self.of_count(height);
        let ndc_x = self.screen(x, jitter_x, w);
        let ndc_y = self.difference(
            Scalar::one(),
            self.quotient(self.product(Scalar { key: TWO_KEY }, self.sum(y, jitter_y)), h),
        );
        let half = self.half_screen(fov);
        let local_x = self.product(self.product(ndc_x, self.quotient(w, h)), half);
        let local_y = self.product(ndc_y, half);
        let dir = self.unit(
            self.blend(
                cam2world.x.direction(),
                local_x,
                cam2world.y.direction(),
                local_y,
                cam2world.z.direction(),
                Scalar::one().negated(),
            ),
        );
        Ray { org: cam2world.w.direction(), dir: self.unit(dir), tmin: Scalar::zero(), tmax: Scalar::infinity() }
    }
}

/// The transform from a camera's own axes to the world: it looks down its third
/// axis, backward, and its first is level.
fn camera_to_world<M: Arith>(math: &M, camera: Camera) -> (r: Transform)
    ensures
        forall|rules: ArithRules| #[trigger] rules.describe(*math) ==> r == rules.camera_to_world(camera),
{
    let cam_z = unit(math, minus(math, camera.position, camera.target));
    let up = Point3 { x: Scalar::zero(), y: Scalar::one(), z: Scalar::zero() };
    let cam_x = unit(math, cross(math, up, cam_z));
    let cam_y = cross(math, cam_z, cam_x);
    Transform {
        x: Vec4::of_direction(cam_x),
        y: Vec4::of_direction(cam_y),
        z: Vec4::of_direction(cam_z),
        w: Vec4::of_place(camera.position),
    }
}

/// Where a point of a row or column of pixels lies on the screen, from -1 to 1.
fn screen<M: Arith>(math: &M, x: Scalar, jitter: Scalar, size: Scalar) -> (r: Scalar)
    ensures
        forall|rules: ArithRules| #[trigger] rules.describe(*math) ==> r == rules.screen(x, jitter, size),
{
    math.difference(math.quotient(math.product(Scalar { key: TWO_KEY }, math.sum(x, jitter)), size), Scalar::one())
}

/// Half the height of the screen at unit distance.
fn half_screen<M: Arith>(math: &M, fov: Scalar) -> (r: Scalar)
    ensures
        forall|rules: ArithRules| #[trigger] rules.describe(*math) ==> r == rules.half_screen(fov),
{
    let radians = math.quotient(math.product(fov, Scalar { key: PI_KEY }), Scalar { key: HALF_TURN_KEY });
    math.slope(math.product(radians, Scalar { key: HALF_KEY }))
}

/// The ray through a point of a pixel.
pub fn camera_ray<M: Arith>(math: &M, cam2world: Transform, fov: Scalar, width: usize, height: usize, x: Scalar, y: Scalar, jitter_x: Scalar, jitter_y: Scalar) -> (r: Ray)
    ensures
        forall|rules: ArithRules| #[trigger] rules.describe(*math) ==> r == rules.camera_ray(cam2world, fov, width, height, x, y, jitter_x, jitter_y),
{
    let w = math.of_count(width);
    let h = math.of_count(height);
    let ndc_x = screen(math, x, jitter_x, w);
    let ndc_y = math.difference(
        Scalar::one(),
        math.quotient(math.product(Scalar { key: TWO_KEY }, math.sum(y, jitter_y)), h),
    );
    let half = half_screen(math, fov);
    let local_x = math.product(math.product(ndc_x, math.quotient(w, h)), half);
    let local_y = math.product(ndc_y, half);
    let dir = unit(
        math,
        blend(
            math,
            cam2world.x.direction(),
            local_x,
            cam2world.y.direction(),
            local_y,
            cam2world.z.direction(),
            Scalar::one().negated(),
        ),
    );
    Ray { org: cam2world.w.direction(), dir: unit(math, dir), tmin: Scalar::zero(), tmax: Scalar::infinity() }
}

impl Camera {
    /// The transform from the camera's own axes to the world.
    pub fn compute_camera_to_world<M: Arith>(&self, math: &M) -> (r: Transform)
        ensures
            forall|rules: ArithRules| #[trigger] rules.describe(*math) ==> r == rules.camera_to_world(*self),
    {
        camera_to_world(math, *self)
    }
}

impl ArithRules {
    /// The ray through the point of a pixel that two draws pick.
    pub open spec fn jittered_ray(
        self,
        camera: Camera,
        width: usize,
        height: usize,
        x: Scalar,
        y: Scalar,
        rng: Stream,
    ) -> Ray {
        self.camera_ray(
            self.camera_to_world(camera),
            camera.fov,
            width,
            height,
            x,
            y,
            rng.value(),
            rng.next().value(),
        )
    }
}

/// The ray through a random point of a pixel.
pub fn jittered_ray<M: Arith>(
    math: &M,
    cam2world: Transform,
    fov: Scalar,
    width: usize,
    height: usize,
    x: Scalar,
    y: Scalar,
    rng: &mut Pcg32,
) -> (r: Ray)
    ensures
        final(rng)@ == old(rng)@.next().next(),
        forall|rules: ArithRules| #[trigger]
            rules.describe(*math) ==> r == rules.camera_ray(
                cam2world,
                fov,
                width,
                height,
                x,
                y,
                old(rng)@.value(),
                old(rng)@.next().value(),
            ),
{
    let jitter_x = rng.next_f32();
    let jitter_y = rng.next_f32();
    camera_ray(math, cam2world, fov, width, height, x, y, jitter_x, jitter_y)
}

/// A camera stands where it is, looks from there to its target and keeps level: its
/// third axis, stretched by the distance, leads back from the target; its first has
/// no height, and points to the right of where it looks; its second stands across
/// both.
pub proof fn law_camera_looks_at_its_target(rules: ArithRules, camera: Camera)
    requires
        rules.keeps_ones(),
        rules.keeps_zeros(),
        rules.keeps_selves(),
        ({
            let back = rules.minus(camera.position, camera.target);
            let z = rules.unit(back);
            let side = rules.cross(Point3 { x: Scalar::zero(), y: Scalar::one(), z: Scalar::zero() }, z);
            &&& z.is_finite()
            &&& rules.scaled(z, rules.norm(back)) == back
            &&& rules.norm(side).is_finite() && Scalar::zero().lt(rules.norm(side))
            &&& rules.difference(Scalar::zero(), z.x) == z.x.negated()
            &&& Scalar::zero().le(rules.quotient(z.z, rules.norm(side))) <==> Scalar::zero().le(z.z)
            &&& Scalar::zero().le(rules.quotient(z.x.negated(), rules.norm(side))) <==> z.x.le(Scalar::zero())
        }),
    ensures
        ({
            let t = rules.camera_to_world(camera);
            let (x, y, z) = (t.x.direction(), t.y.direction(), t.z.direction());
            &&& t.w.direction() == camera.position && t.w.w == Scalar::one()
            &&& t.x.w == Scalar::zero() && t.y.w == Scalar::zero() && t.z.w == Scalar::zero()
            &&& rules.scaled(z, rules.norm(rules.minus(camera.position, camera.target))) == rules.minus(
                camera.position,
                camera.target,
            )
            &&& x.y == Scalar::zero()
            &&& Scalar::zero().le(x.x) <==> Scalar::zero().le(z.z)
            &&& Scalar::zero().le(x.z) <==> z.x.le(Scalar::zero())
            &&& y == rules.cross(z, x)
        }),
{
    let z = rules.unit(rules.minus(camera.position, camera.target));
    let up = Point3 { x: Scalar::zero(), y: Scalar::one(), z: Scalar::zero() };
    let side = rules.cross(up, z);
    assert(rules.product(Scalar::one(), z.z) == z.z);
    assert(rules.product(Scalar::zero(), z.y) == Scalar::zero());
    assert(rules.product(Scalar::zero(), z.x) == Scalar::zero());
    assert(rules.product(Scalar::zero(), z.z) == Scalar::zero());
    assert(rules.product(Scalar::one(), z.x) == z.x);
    assert(rules.difference(z.z, Scalar::zero()) == z.z);
    assert(rules.difference(Scalar::zero(), Scalar::zero()) == Scalar::zero());
    assert(side == Point3 { x: z.z, y: Scalar::zero(), z: z.x.negated() });
}

/// Whether a place in a picture is its middle along an axis.
pub open spec fn is_middle(rules: ArithRules, x: Scalar, jitter: Scalar, size: usize) -> bool {
    rules.quotient(
        rules.product(Scalar { key: TWO_KEY }, rules.sum(x, jitter)),
        rules.of_count(size),
    ) == Scalar::one()
}

/// The ray through the middle of the picture runs along the third axis of the camera,
/// forward, from where the camera stands.
pub proof fn law_middle_looks_ahead(
    rules: ArithRules,
    cam2world: Transform,
    fov: Scalar,
    width: usize,
    height: usize,
    x: Scalar,
    y: Scalar,
    jitter_x: Scalar,
    jitter_y: Scalar,
)
    requires
        rules.keeps_ones(),
        rules.keeps_zeros(),
        rules.keeps_selves(),
        rules.keeps_signs(),
        rules.commutes(),
        is_middle(rules, x, jitter_x, width),
        is_middle(rules, y, jitter_y, height),
        rules.quotient(rules.of_count(width), rules.of_count(height)).is_finite(),
        rules.half_screen(fov).is_finite(),
        cam2world.x.direction().is_finite(),
        cam2world.y.direction().is_finite(),
        cam2world.z.direction().is_finite(),
    ensures
        ({
            let ray = rules.camera_ray(cam2world, fov, width, height, x, y, jitter_x, jitter_y);
            &&& ray.org == cam2world.w.direction()
            &&& ray.dir == rules.unit(rules.unit(cam2world.z.direction().negated()))
            &&& ray.tmin == Scalar::zero()
            &&& ray.tmax == Scalar::infinity()
        }),
{
    let o = Scalar::zero();
    let (a, b, c) = (cam2world.x.direction(), cam2world.y.direction(), cam2world.z.direction());
    assert(rules.difference(Scalar::one(), Scalar::one()) == o);
    assert(rules.product(o, rules.quotient(rules.of_count(width), rules.of_count(height))) == o);
    assert(rules.product(o, rules.half_screen(fov)) == o);
    let minus_one = Scalar::one().negated();
    assert(rules.product(c.x, minus_one) == rules.product(minus_one, c.x));
    assert(rules.product(c.y, minus_one) == rules.product(minus_one, c.y));
    assert(rules.product(c.z, minus_one) == rules.product(minus_one, c.z));
    assert(rules.product(Scalar::one().negated(), c.x) == rules.product(Scalar::one(), c.x).negated());
    assert(rules.product(Scalar::one().negated(), c.y) == rules.product(Scalar::one(), c.y).negated());
    assert(rules.product(Scalar::one().negated(), c.z) == rules.product(Scalar::one(), c.z).negated());
    assert(rules.scaled(c, minus_one) == c.negated());
    assert(rules.scaled(a, o) == Point3::origin() && rules.scaled(b, o) == Point3::origin());
    assert(rules.plus(Point3::origin(), Point3::origin()) == Point3::origin());
    assert(rules.plus(Point3::origin(), c.negated()) == c.negated());
}

/// Whether a camera's axes are those of the world.
pub open spec fn is_upright(t: Transform) -> bool {
    let (o, i) = (Scalar::zero(), Scalar::one());
    &&& t.x.direction() == (Point3 { x: i, y: o, z: o })
    &&& t.y.direction() == (Point3 { x: o, y: i, z: o })
    &&& t.z.direction() == (Point3 { x: o, y: o, z: i })
}

/// A ray of an upright camera runs to a point of a screen at unit distance in front
/// of it: pixels further right lie further along the first axis and pixels further
/// down further against the second, by half the screen on each side of the middle,
/// and by the shape of the picture more to the sides.
pub proof fn law_pixels_run_right_and_down(
    rules: ArithRules,
    t: Transform,
    fov: Scalar,
    width: usize,
    height: usize,
    x: Scalar,
    y: Scalar,
    jitter_x: Scalar,
    jitter_y: Scalar,
)
    requires
        rules.keeps_ones(),
        rules.keeps_zeros(),
        rules.keeps_signs(),
        rules.commutes(),
        is_upright(t),
        ({
            let along = rules.quotient(
                rules.product(Scalar { key: TWO_KEY }, rules.sum(x, jitter_x)),
                rules.of_count(width),
            );
            let down = rules.quotient(
                rules.product(Scalar { key: TWO_KEY }, rules.sum(y, jitter_y)),
                rules.of_count(height),
            );
            let shape = rules.quotient(rules.of_count(width), rules.of_count(height));
            let half = rules.half_screen(fov);
            let right = rules.product(rules.product(rules.difference(along, Scalar::one()), shape), half);
            let up = rules.product(rules.difference(Scalar::one(), down), half);
            right.is_finite() && up.is_finite()
        }),
    ensures
        ({
            let along = rules.quotient(
                rules.product(Scalar { key: TWO_KEY }, rules.sum(x, jitter_x)),
                rules.of_count(width),
            );
            let down = rules.quotient(
                rules.product(Scalar { key: TWO_KEY }, rules.sum(y, jitter_y)),
                rules.of_count(height),
            );
            let shape = rules.quotient(rules.of_count(width), rules.of_count(height));
            let half = rules.half_screen(fov);
            rules.camera_ray(t, fov, width, height, x, y, jitter_x, jitter_y).dir == rules.unit(
                rules.unit(
                    Point3 {
                        x: rules.product(rules.product(rules.difference(along, Scalar::one()), shape), half),
                        y: rules.product(rules.difference(Scalar::one(), down), half),
                        z: Scalar::one().negated(),
                    },
                ),
            )
        }),
{
    let along = rules.quotient(rules.product(Scalar { key: TWO_KEY }, rules.sum(x, jitter_x)), rules.of_count(width));
    let down = rules.quotient(rules.product(Scalar { key: TWO_KEY }, rules.sum(y, jitter_y)), rules.of_count(height));
    let shape = rules.quotient(rules.of_count(width), rules.of_count(height));
    let half = rules.half_screen(fov);
    let right = rules.product(rules.product(rules.difference(along, Scalar::one()), shape), half);
    let up = rules.product(rules.difference(Scalar::one(), down), half);
    let back = Scalar::one().negated();
    let (o, i) = (Scalar::zero(), Scalar::one());
    assert(rules.scaled(t.x.direction(), right) == Point3 { x: right, y: o, z: o });
    assert(rules.scaled(t.y.direction(), up) == Point3 { x: o, y: up, z: o });
    assert(rules.scaled(t.z.direction(), back) == Point3 { x: o, y: o, z: back });
    assert(rules.plus(Point3 { x: right, y: o, z: o }, Point3 { x: o, y: up, z: o }) == Point3 { x: right, y: up, z: o });
    assert(rules.plus(Point3 { x: right, y: up, z: o }, Point3 { x: o, y: o, z: back }) == Point3 {
        x: right,
        y: up,
        z: back,
    });
}

/// A wider field of view shows more, and one whose half is an angle of slope one shows
/// as much to each side as it looks ahead.
pub proof fn law_wider_view_shows_more(rules: ArithRules, narrow: Scalar, wide: Scalar)
    requires
        rules.keeps_zeros(),
        rules.orders_products(),
        Scalar::zero().le(narrow) && narrow.le(wide) && wide.is_finite(),
        rules.product(narrow, Scalar { key: PI_KEY }).is_finite(),
        rules.product(wide, Scalar { key: PI_KEY }).is_finite(),
        ({
            let a = rules.quotient(rules.product(narrow, Scalar { key: PI_KEY }), Scalar { key: HALF_TURN_KEY });
            let b = rules.quotient(rules.product(wide, Scalar { key: PI_KEY }), Scalar { key: HALF_TURN_KEY });
            a.is_finite() && b.is_finite()
        }),
        forall|a: Scalar, b: Scalar|
            #![trigger rules.slope(a), rules.slope(b)]
            Scalar::zero().le(a) && a.le(b) && b.le(
                rules.product(
                    rules.quotient(rules.product(wide, Scalar { key: PI_KEY }), Scalar { key: HALF_TURN_KEY }),
                    Scalar { key: HALF_KEY },
                ),
            ) ==> rules.slope(a).le(rules.slope(b)),
    ensures
        rules.half_screen(narrow).le(rules.half_screen(wide)),
        rules.quotient(rules.product(wide, Scalar { key: PI_KEY }), Scalar { key: HALF_TURN_KEY }) == (Scalar {
            key: PI_KEY,
        }) ==> rules.half_screen(wide) == rules.slope(
            rules.product(Scalar { key: PI_KEY }, Scalar { key: HALF_KEY }),
        ),
{
    let (pi, turn, half) = (Scalar { key: PI_KEY }, Scalar { key: HALF_TURN_KEY }, Scalar { key: HALF_KEY });
    let a = rules.quotient(rules.product(narrow, pi), turn);
    let o = Scalar::zero();
    assert(rules.product(o, pi) == o && rules.quotient(o, turn) == o && rules.product(o, half) == o);
    assert(rules.product(o, pi).le(rules.product(narrow, pi)));
    assert(rules.quotient(o, turn).le(a));
    assert(rules.product(o, half).le(rules.product(a, half)));
}

} // verus!
