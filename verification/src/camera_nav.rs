//! Moving a camera by dragging and scrolling.
use vstd::prelude::*;
use crate::arith::{cross, minus, norm, plus, scaled, shrunk, Arith, ArithRules};
use crate::scalar::{Point3, Scalar};
use crate::scene::Camera;
use crate::tracer::direct::RAY_EPSILON_KEY;
use crate::tracer::training::MIN_THROUGHPUT_KEY;

verus! {

/// Key of the angle per pixel dragged, and of how near to the poles a camera comes.
pub const ORBIT_STEP_KEY: i32 = 0x3ba3_d70a;

/// Key of the greatest polar angle of a camera.
pub const ORBIT_LIMIT_KEY: i32 = 0x4048_bdef;

/// Key of the least distance between a camera and its target.
pub const NEAREST_KEY: i32 = 0x3c23_d70a;

impl ArithRules {
    /// A camera, turned around its target: sideways by `dx`, up and down by `dy`.
    /// One that is on its target stays.
    pub open spec fn orbited(self, camera: Camera, dx: Scalar, dy: Scalar) -> Camera {
        let to_cam = self.minus(camera.position, camera.target);
        let r = self.norm(to_cam);
        if r.lt(Scalar { key: MIN_THROUGHPUT_KEY }) {
            camera
        } else {
            let step = Scalar { key: ORBIT_STEP_KEY };
            let theta = self.arc_cosine(self.quotient(to_cam.y, r).clamped(Scalar::one().negated(), Scalar::one()));
            let phi = self.difference(self.arc_tangent(to_cam.z, to_cam.x), self.product(dx, step));
            let theta = self.sum(theta, self.product(dy, step)).clamped(step, Scalar { key: ORBIT_LIMIT_KEY });
            let offset = Point3 {
                x: self.product(self.product(r, self.sine(theta)), self.cosine(phi)),
                y: self.product(r, self.cosine(theta)),
                z: self.product(self.product(r, self.sine(theta)), self.sine(phi)),
            };
            Camera { position: self.plus(camera.target, offset), target: camera.target, fov: camera.fov }
        }
    }

    /// A camera and its target, moved in the plane of the picture. One that is on its
    /// target, or looks straight up or down, stays.
    pub open spec fn panned(self, camera: Camera, dx: Scalar, dy: Scalar) -> Camera {
        let v = self.minus(camera.target, camera.position);
        let r = self.norm(v);
        if r.lt(Scalar { key: MIN_THROUGHPUT_KEY }) {
            camera
        } else {
            let forward = self.shrunk(v, r);
            let side = self.cross(forward, Point3 { x: Scalar::zero(), y: Scalar::one(), z: Scalar::zero() });
            let length = self.norm(side);
            if length.lt(Scalar { key: MIN_THROUGHPUT_KEY }) {
                camera
            } else {
                let right = self.shrunk(side, length);
                let up = self.cross(right, forward);
                let s = self.product(r, Scalar { key: RAY_EPSILON_KEY });
                let offset = self.plus(
                    self.scaled(right, self.product(dx.negated(), s)),
                    self.scaled(up, self.product(dy, s)),
                );
                Camera {
                    position: self.plus(camera.position, offset),
                    target: self.plus(camera.target, offset),
                    fov: camera.fov,
                }
            }
        }
    }

    /// A camera, moved toward its target or away from it.
    pub open spec fn dollied(self, camera: Camera, scroll: Scalar) -> Camera {
        let to_cam = self.minus(camera.position, camera.target);
        let r = self.norm(to_cam);
        if r.lt(Scalar { key: MIN_THROUGHPUT_KEY }) {
            camera
        } else {
            let factor = self.exponential(self.product(scroll.negated(), Scalar { key: ORBIT_STEP_KEY }));
            let new_r = self.product(r, factor).max(Scalar { key: NEAREST_KEY });
            Camera {
                position: self.plus(camera.target, self.scaled(self.shrunk(to_cam, r), new_r)),
                target: camera.target,
                fov: camera.fov,
            }
        }
    }
}

/// A camera, turned around its target: sideways by `dx`, up and down by `dy`.
/// One that is on its target stays.
fn orbited<M: Arith>(math: &M, camera: Camera, dx: Scalar, dy: Scalar) -> (r: Camera)
    ensures
        forall|rules: ArithRules| #[trigger] rules.describe(*math) ==> r == rules.orbited(camera, dx, dy),
{
    let to_cam = minus(math, camera.position, camera.target);
    let r = norm(math, to_cam);
    if r.lt(Scalar { key: MIN_THROUGHPUT_KEY }) {
        camera
    } else {
        let step = Scalar { key: ORBIT_STEP_KEY };
        let theta = math.arc_cosine(math.quotient(to_cam.y, r).clamped(Scalar::one().negated(), Scalar::one()));
        let phi = math.difference(math.arc_tangent(to_cam.z, to_cam.x), math.product(dx, step));
        let theta = math.sum(theta, math.product(dy, step)).clamped(step, Scalar { key: ORBIT_LIMIT_KEY });
        let offset = Point3 {
            x: math.product(math.product(r, math.sine(theta)), math.cosine(phi)),
            y: math.product(r, math.cosine(theta)),
            z: math.product(math.product(r, math.sine(theta)), math.sine(phi)),
        };
        Camera { position: plus(math, camera.target, offset), target: camera.target, fov: camera.fov }
    }
}

/// A camera and its target, moved in the plane of the picture. One that is on its
/// target, or looks straight up or down, stays.
fn panned<M: Arith>(math: &M, camera: Camera, dx: Scalar, dy: Scalar) -> (r: Camera)
    ensures
        forall|rules: ArithRules| #[trigger] rules.describe(*math) ==> r == rules.panned(camera, dx, dy),
{
    let v = minus(math, camera.target, camera.position);
    let r = norm(math, v);
    if r.lt(Scalar { key: MIN_THROUGHPUT_KEY }) {
        camera
    } else {
        let forward = shrunk(math, v, r);
        let side = cross(math, forward, Point3 { x: Scalar::zero(), y: Scalar::one(), z: Scalar::zero() });
        let length = norm(math, side);
        if length.lt(Scalar { key: MIN_THROUGHPUT_KEY }) {
            camera
        } else {
            let right = shrunk(math, side, length);
            let up = cross(math, right, forward);
            let s = math.product(r, Scalar { key: RAY_EPSILON_KEY });
            let offset = plus(
                math,
                scaled(math, right, math.product(dx.negated(), s)),
                scaled(math, up, math.product(dy, s)),
            );
            Camera {
                position: plus(math, camera.position, offset),
                target: plus(math, camera.target, offset),
                fov: camera.fov,
            }
        }
    }
}

/// A camera, moved toward its target or away from it.
fn dollied<M: Arith>(math: &M, camera: Camera, scroll: Scalar) -> (r: Camera)
    ensures
        forall|rules: ArithRules| #[trigger] rules.describe(*math) ==> r == rules.dollied(camera, scroll),
{
    let to_cam = minus(math, camera.position, camera.target);
    let r = norm(math, to_cam);
    if r.lt(Scalar { key: MIN_THROUGHPUT_KEY }) {
        camera
    } else {
        let factor = math.exponential(math.product(scroll.negated(), Scalar { key: ORBIT_STEP_KEY }));
        let new_r = math.product(r, factor).max(Scalar { key: NEAREST_KEY });
        Camera {
            position: plus(math, camera.target, scaled(math, shrunk(math, to_cam, r), new_r)),
            target: camera.target,
            fov: camera.fov,
        }
    }
}

/// Orbit the camera around its target in spherical coordinates.
pub fn orbit<M: Arith>(math: &M, camera: &mut Camera, dx: Scalar, dy: Scalar)
    ensures
        forall|rules: ArithRules| #[trigger] rules.describe(*math) ==> *final(camera) == rules.orbited(*old(camera), dx, dy),
{
    *camera = orbited(math, *camera, dx, dy);
}

/// Pan (translate) the camera and its target together in the view plane.
pub fn pan<M: Arith>(math: &M, camera: &mut Camera, dx: Scalar, dy: Scalar)
    ensures
        forall|rules: ArithRules| #[trigger] rules.describe(*math) ==> *final(camera) == rules.panned(*old(camera), dx, dy),
{
    *camera = panned(math, *camera, dx, dy);
}

/// Dolly (zoom) the camera toward or away from the target.
pub fn dolly<M: Arith>(math: &M, camera: &mut Camera, scroll: Scalar)
    ensures
        forall|rules: ArithRules| #[trigger] rules.describe(*math) ==> *final(camera) == rules.dollied(*old(camera), scroll),
{
    *camera = dollied(math, *camera, scroll);
}

/// Turning and zooming leave the target and the field of view alone; moving
/// leaves the field of view alone.
pub proof fn law_navigation_keeps(rules: ArithRules, camera: Camera, dx: Scalar, dy: Scalar, scroll: Scalar)
    ensures
        rules.orbited(camera, dx, dy).target == camera.target,
        rules.orbited(camera, dx, dy).fov == camera.fov,
        rules.dollied(camera, scroll).target == camera.target,
        rules.dollied(camera, scroll).fov == camera.fov,
        rules.panned(camera, dx, dy).fov == camera.fov,
{
}

/// Dragging down lifts no camera: the further down a drag goes, the lower the camera
/// comes to stand, wherever cosines fall up to half a turn.
pub proof fn law_dragging_down_lowers_the_camera(rules: ArithRules, camera: Camera, dx: Scalar, less: Scalar, more: Scalar)
    requires
        rules.orders_sums(),
        rules.orders_products(),
        less.is_finite() && more.is_finite() && less.le(more),
        camera.target.is_finite(),
        ({
            let step = Scalar { key: ORBIT_STEP_KEY };
            let to_cam = rules.minus(camera.position, camera.target);
            let r = rules.norm(to_cam);
            let theta = rules.arc_cosine(
                rules.quotient(to_cam.y, r).clamped(Scalar::one().negated(), Scalar::one()),
            );
            &&& r.is_finite() && Scalar::zero().le(r)
            &&& theta.is_finite()
            &&& rules.product(less, step).is_finite() && rules.product(more, step).is_finite()
        }),
        forall|a: Scalar, b: Scalar|
            #![trigger rules.cosine(a), rules.cosine(b)]
            (Scalar { key: ORBIT_STEP_KEY }).le(a) && a.le(b) && b.le(Scalar { key: ORBIT_LIMIT_KEY })
                ==> rules.cosine(b).le(rules.cosine(a)) && rules.cosine(a).is_finite() && rules.cosine(b).is_finite(),
        forall|a: Scalar, b: Scalar|
            a.is_finite() && (Scalar { key: ORBIT_STEP_KEY }).le(b) && b.le(Scalar { key: ORBIT_LIMIT_KEY })
                ==> (#[trigger] rules.product(a, rules.cosine(b))).is_finite(),
    ensures
        rules.orbited(camera, dx, more).position.y.le(rules.orbited(camera, dx, less).position.y)
            || rules.norm(rules.minus(camera.position, camera.target)).lt(Scalar { key: MIN_THROUGHPUT_KEY }),
{
    let step = Scalar { key: ORBIT_STEP_KEY };
    let to_cam = rules.minus(camera.position, camera.target);
    let r = rules.norm(to_cam);
    let theta = rules.arc_cosine(rules.quotient(to_cam.y, r).clamped(Scalar::one().negated(), Scalar::one()));
    let a = rules.sum(theta, rules.product(less, step)).clamped(step, Scalar { key: ORBIT_LIMIT_KEY });
    let b = rules.sum(theta, rules.product(more, step)).clamped(step, Scalar { key: ORBIT_LIMIT_KEY });
    assert(rules.product(less, step).le(rules.product(more, step)));
    assert(a.le(b));
    assert(rules.cosine(b).le(rules.cosine(a)));
    assert(rules.product(r, rules.cosine(b)).le(rules.product(r, rules.cosine(a))));
}

/// Dragging sideways turns a camera around the vertical by its step, against the drag:
/// drags whose angles agree lead to one place, and the height stays.
pub proof fn law_dragging_sideways_turns_the_camera(rules: ArithRules, camera: Camera, dx: Scalar, dy: Scalar, other: Scalar)
    ensures
        rules.orbited(camera, dx, dy).position.y == rules.orbited(camera, other, dy).position.y,
        ({
            let to_cam = rules.minus(camera.position, camera.target);
            let around = rules.arc_tangent(to_cam.z, to_cam.x);
            let turned = rules.difference(around, rules.product(dx, Scalar { key: ORBIT_STEP_KEY }));
            let far = !rules.norm(to_cam).lt(Scalar { key: MIN_THROUGHPUT_KEY });
            &&& far ==> exists|radius: Scalar|
                rules.orbited(camera, dx, dy).position.x == rules.sum(
                    camera.target.x,
                    #[trigger] rules.product(radius, rules.cosine(turned)),
                ) && rules.orbited(camera, dx, dy).position.z == rules.sum(
                    camera.target.z,
                    rules.product(radius, rules.sine(turned)),
                )
        }),
{
    let step = Scalar { key: ORBIT_STEP_KEY };
    let to_cam = rules.minus(camera.position, camera.target);
    let r = rules.norm(to_cam);
    let theta = rules.arc_cosine(rules.quotient(to_cam.y, r).clamped(Scalar::one().negated(), Scalar::one()));
    let theta = rules.sum(theta, rules.product(dy, step)).clamped(step, Scalar { key: ORBIT_LIMIT_KEY });
    let radius = rules.product(r, rules.sine(theta));
    let turned = rules.difference(rules.arc_tangent(to_cam.z, to_cam.x), rules.product(dx, step));
    if !r.lt(Scalar { key: MIN_THROUGHPUT_KEY }) {
        assert(rules.orbited(camera, dx, dy).position.x == rules.sum(
            camera.target.x,
            rules.product(radius, rules.cosine(turned)),
        ));
    }
}

/// A camera that is not dragged stays where it is, wherever its place can be found
/// again from its distance and its angles.
pub proof fn law_no_drag_moves_nothing(rules: ArithRules, camera: Camera)
    requires
        rules.keeps_ones(),
        rules.keeps_zeros(),
        ({
            let to_cam = rules.minus(camera.position, camera.target);
            let r = rules.norm(to_cam);
            let theta = rules.arc_cosine(
                rules.quotient(to_cam.y, r).clamped(Scalar::one().negated(), Scalar::one()),
            );
            let phi = rules.arc_tangent(to_cam.z, to_cam.x);
            &&& theta.is_finite() && phi.is_finite()
            &&& (Scalar { key: ORBIT_STEP_KEY }).le(theta) && theta.le(Scalar { key: ORBIT_LIMIT_KEY })
            &&& rules.product(r, rules.cosine(theta)) == to_cam.y
            &&& rules.product(rules.product(r, rules.sine(theta)), rules.cosine(phi)) == to_cam.x
            &&& rules.product(rules.product(r, rules.sine(theta)), rules.sine(phi)) == to_cam.z
            &&& rules.plus(camera.target, to_cam) == camera.position
        }),
    ensures
        rules.orbited(camera, Scalar::zero(), Scalar::zero()) == camera,
{
}

/// Moving a camera moves its target along: both by one offset, in the plane of the
/// picture, against a drag to the side and with a drag down; and further the further
/// the target is.
pub proof fn law_panning_moves_camera_and_target_alike(rules: ArithRules, camera: Camera, dx: Scalar, dy: Scalar)
    ensures
        exists|offset: Point3|
            rules.panned(camera, dx, dy).position == #[trigger] rules.plus(camera.position, offset) && rules.panned(
                camera,
                dx,
                dy,
            ).target == rules.plus(camera.target, offset) || rules.panned(camera, dx, dy) == camera,
        ({
            let v = rules.minus(camera.target, camera.position);
            let forward = rules.shrunk(v, rules.norm(v));
            let side = rules.cross(forward, Point3 { x: Scalar::zero(), y: Scalar::one(), z: Scalar::zero() });
            let right = rules.shrunk(side, rules.norm(side));
            let s = rules.product(rules.norm(v), Scalar { key: RAY_EPSILON_KEY });
            let moved = rules.panned(camera, dx, dy);
            moved == camera || moved.position == rules.plus(
                camera.position,
                rules.plus(
                    rules.scaled(right, rules.product(dx.negated(), s)),
                    rules.scaled(rules.cross(right, forward), rules.product(dy, s)),
                ),
            )
        }),
{
    let v = rules.minus(camera.target, camera.position);
    let forward = rules.shrunk(v, rules.norm(v));
    let side = rules.cross(forward, Point3 { x: Scalar::zero(), y: Scalar::one(), z: Scalar::zero() });
    let right = rules.shrunk(side, rules.norm(side));
    let s = rules.product(rules.norm(v), Scalar { key: RAY_EPSILON_KEY });
    let offset = rules.plus(
        rules.scaled(right, rules.product(dx.negated(), s)),
        rules.scaled(rules.cross(right, forward), rules.product(dy, s)),
    );
    assert(rules.panned(camera, dx, dy) == camera || rules.panned(camera, dx, dy).position == rules.plus(
        camera.position,
        offset,
    ));
}

/// Scrolling forward brings a camera nearer to its target and never beyond the least
/// distance; scrolling back takes it away; and it stays on the line between them.
pub proof fn law_scrolling_zooms(rules: ArithRules, camera: Camera, scroll: Scalar)
    requires
        rules.keeps_ones(),
        rules.keeps_zeros(),
        rules.orders_products(),
        scroll.is_finite(),
        forall|a: Scalar| a.le(Scalar::zero()) ==> (#[trigger] rules.exponential(a)).le(Scalar::one()),
        forall|a: Scalar| Scalar::zero().le(a) ==> Scalar::one().le(#[trigger] rules.exponential(a)),
        ({
            let r = rules.norm(rules.minus(camera.position, camera.target));
            let factor = rules.exponential(rules.product(scroll.negated(), Scalar { key: ORBIT_STEP_KEY }));
            r.is_finite() && (Scalar { key: NEAREST_KEY }).le(r) && factor.is_finite()
        }),
    ensures
        exists|distance: Scalar|
            rules.dollied(camera, scroll).position == rules.plus(
                camera.target,
                #[trigger] rules.scaled(rules.unit(rules.minus(camera.position, camera.target)), distance),
            ) && (Scalar { key: NEAREST_KEY }).le(distance) && (Scalar::zero().le(scroll) ==> distance.le(
                rules.norm(rules.minus(camera.position, camera.target)),
            )) && (scroll.le(Scalar::zero()) ==> rules.norm(rules.minus(camera.position, camera.target)).le(distance)),
{
    let r = rules.norm(rules.minus(camera.position, camera.target));
    let step = Scalar { key: ORBIT_STEP_KEY };
    let e = rules.product(scroll.negated(), step);
    let factor = rules.exponential(e);
    assert(rules.product(Scalar::zero(), step) == Scalar::zero());
    if Scalar::zero().le(scroll) {
        assert(e.le(rules.product(Scalar::zero(), step)));
        assert(factor.le(Scalar::one()));
        assert(rules.product(r, factor).le(rules.product(r, Scalar::one())));
    }
    if scroll.le(Scalar::zero()) {
        assert(rules.product(Scalar::zero(), step).le(e));
        assert(Scalar::one().le(factor));
        assert(rules.product(r, Scalar::one()).le(rules.product(r, factor)));
    }
    assert(rules.product(r, Scalar::one()) == r);
    let distance = rules.product(r, factor).max(Scalar { key: NEAREST_KEY });
    assert(rules.dollied(camera, scroll).position == rules.plus(
        camera.target,
        rules.scaled(rules.unit(rules.minus(camera.position, camera.target)), distance),
    ));
}

} // verus!
