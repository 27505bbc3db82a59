//! Where the picture stands in its window, and what the pointer does there.
use vstd::prelude::*;
use crate::arith::{Arith, ArithRules};
use crate::emitters::HALF_KEY;
use crate::microfacet::TWO_KEY;
use crate::scalar::Scalar;
use crate::scene::Vec2;

verus! {

/// Camera navigation from one frame.
#[derive(Clone, Copy, PartialEq, Eq, Structural, Debug)]
pub struct NavInput {
    pub orbit: Vec2,
    pub pan: Vec2,
    pub scroll: Scalar,
    pub changed: bool,
}

/// What the pointer did over the picture in one frame.
#[derive(Clone, Copy, PartialEq, Eq, Structural, Debug)]
pub struct PointerInput {
    /// Whether the key that places probes is held.
    pub ctrl: bool,
    /// Whether the primary button drags.
    pub primary: bool,
    /// Whether the middle or the secondary button drags.
    pub secondary: bool,
    pub delta: Vec2,
    pub hovered: bool,
    pub scroll: Scalar,
}

/// A place in a window: where it starts, and how large it is.
#[derive(Clone, Copy, PartialEq, Eq, Structural, Debug)]
pub struct Place {
    pub offset: Vec2,
    pub size: Vec2,
}

/// Whether a drag went anywhere.
#[verifier::allow_in_spec]
pub fn is_moved(delta: Vec2) -> bool
    returns
        delta.x != Scalar::zero() || delta.y != Scalar::zero(),
{
    delta.x != Scalar::zero() || delta.y != Scalar::zero()
}

/// What a pointer does to the camera: the primary button turns it, the others
/// move it, the wheel zooms; nothing while probes are placed.
pub open spec fn navigation(p: PointerInput) -> NavInput {
    let turns = !p.ctrl && p.primary && is_moved(p.delta);
    let moves = !p.ctrl && p.secondary && is_moved(p.delta);
    let zooms = !p.ctrl && p.hovered && (Scalar { key: HALF_KEY }).lt(p.scroll.magnitude());
    NavInput {
        orbit: if turns {
            p.delta
        } else {
            Vec2::zero()
        },
        pan: if moves {
            p.delta
        } else {
            Vec2::zero()
        },
        scroll: if zooms {
            p.scroll
        } else {
            Scalar::zero()
        },
        changed: turns || moves || zooms,
    }
}

/// What a pointer does to the camera.
pub fn navigate(p: PointerInput) -> (r: NavInput)
    ensures
        r == navigation(p),
{
    let mut nav = NavInput { orbit: Vec2::zero(), pan: Vec2::zero(), scroll: Scalar::zero(), changed: false };
    if !p.ctrl {
        if p.primary && is_moved(p.delta) {
            nav.orbit = p.delta;
            nav.changed = true;
        }
        if p.secondary && is_moved(p.delta) {
            nav.pan = p.delta;
            nav.changed = true;
        }
        if p.hovered && (Scalar { key: HALF_KEY }).lt(p.scroll.magnitude()) {
            nav.scroll = p.scroll;
            nav.changed = true;
        }
    }
    nav
}

/// While probes are placed the camera stays.
pub proof fn law_probing_moves_nothing(p: PointerInput)
    requires
        p.ctrl,
    ensures
        !navigation(p).changed,
        navigation(p).orbit == Vec2::zero(),
        navigation(p).pan == Vec2::zero(),
        navigation(p).scroll == Scalar::zero(),
{
}

impl ArithRules {
    /// The largest place of the picture's shape in the middle of the window.
    pub open spec fn fitted(self, available: Vec2, picture: Vec2) -> Place {
        let aspect = self.quotient(picture.x, picture.y);
        let size = if aspect.lt(self.quotient(available.x, available.y)) {
            Vec2 { x: self.product(available.y, aspect), y: available.y }
        } else {
            Vec2 { x: available.x, y: self.quotient(available.x, aspect) }
        };
        Place {
            offset: Vec2 {
                x: self.product(self.difference(available.x, size.x), Scalar { key: HALF_KEY }),
                y: self.product(self.difference(available.y, size.y), Scalar { key: HALF_KEY }),
            },
            size,
        }
    }

    /// The point of the picture that a point of the window shows.
    pub open spec fn pointed_at(self, at: Vec2, place: Place, width: usize, height: usize) -> Vec2 {
        Vec2 {
            x: self.product(
                self.quotient(self.difference(at.x, place.offset.x), place.size.x),
                self.of_count(width),
            ),
            y: self.product(
                self.quotient(self.difference(at.y, place.offset.y), place.size.y),
                self.of_count(height),
            ),
        }
    }
}

/// The largest place of the picture's shape in the middle of the window.
pub fn fitted<M: Arith>(math: &M, available: Vec2, picture: Vec2) -> (r: Place)
    ensures
        forall|rules: ArithRules| #[trigger] rules.describe(*math) ==> r == rules.fitted(available, picture),
{
    let aspect = math.quotient(picture.x, picture.y);
    let size = if aspect.lt(math.quotient(available.x, available.y)) {
        Vec2 { x: math.product(available.y, aspect), y: available.y }
    } else {
        Vec2 { x: available.x, y: math.quotient(available.x, aspect) }
    };
    Place {
        offset: Vec2 {
            x: math.product(math.difference(available.x, size.x), Scalar { key: HALF_KEY }),
            y: math.product(math.difference(available.y, size.y), Scalar { key: HALF_KEY }),
        },
        size,
    }
}

/// The point of the picture that a point of the window shows.
pub fn pointed_at<M: Arith>(math: &M, at: Vec2, place: Place, width: usize, height: usize) -> (r: Vec2)
    ensures
        forall|rules: ArithRules| #[trigger] rules.describe(*math) ==> r == rules.pointed_at(at, place, width, height),
{
    Vec2 {
        x: math.product(
            math.quotient(math.difference(at.x, place.offset.x), place.size.x),
            math.of_count(width),
        ),
        y: math.product(
            math.quotient(math.difference(at.y, place.offset.y), place.size.y),
            math.of_count(height),
        ),
    }
}

/// The primary button turns, the others move and the wheel zooms, each by what was
/// dragged or scrolled, and none does what another does.
pub proof fn law_buttons_have_their_own_work(p: PointerInput)
    requires
        !p.ctrl,
    ensures
        p.primary ==> navigation(p).orbit == p.delta,
        !p.primary ==> navigation(p).orbit == Vec2::zero(),
        p.secondary ==> navigation(p).pan == p.delta,
        !p.secondary ==> navigation(p).pan == Vec2::zero(),
        !p.hovered ==> navigation(p).scroll == Scalar::zero(),
        p.hovered && (Scalar { key: HALF_KEY }).lt(p.scroll.magnitude()) ==> navigation(p).scroll == p.scroll,
        navigation(p).changed <==> navigation(p).orbit != Vec2::zero() || navigation(p).pan != Vec2::zero()
            || navigation(p).scroll != Scalar::zero(),
{
}

/// The picture fits its window: it fills one side and is not larger along the other,
/// keeps its shape, and stands in the middle.
pub proof fn law_picture_fits_its_window(rules: ArithRules, available: Vec2, picture: Vec2)
    requires
        rules.orders_products(),
        available.x.is_finite() && Scalar::zero().lt(available.x),
        available.y.is_finite() && Scalar::zero().lt(available.y),
        ({
            let shape = rules.quotient(picture.x, picture.y);
            let window = rules.quotient(available.x, available.y);
            &&& shape.is_finite() && Scalar::zero().lt(shape)
            &&& window.is_finite()
            &&& rules.product(available.y, window) == available.x
            &&& rules.product(available.y, shape).is_finite()
            &&& rules.product(rules.quotient(available.x, shape), shape) == available.x
            &&& !shape.lt(window) ==> rules.quotient(available.x, shape).le(available.y)
        }),
        rules.product(
            rules.product(
                rules.difference(available.x, rules.fitted(available, picture).size.x),
                Scalar { key: HALF_KEY },
            ),
            Scalar { key: TWO_KEY },
        ) == rules.difference(available.x, rules.fitted(available, picture).size.x),
        rules.product(
            rules.product(
                rules.difference(available.y, rules.fitted(available, picture).size.y),
                Scalar { key: HALF_KEY },
            ),
            Scalar { key: TWO_KEY },
        ) == rules.difference(available.y, rules.fitted(available, picture).size.y),
    ensures
        ({
            let place = rules.fitted(available, picture);
            &&& place.size.x.le(available.x)
            &&& place.size.y.le(available.y)
            &&& place.size.x == available.x || place.size.y == available.y
            &&& place.size.x == rules.product(place.size.y, rules.quotient(picture.x, picture.y))
            &&& rules.product(place.offset.x, Scalar { key: TWO_KEY }) == rules.difference(available.x, place.size.x)
            &&& rules.product(place.offset.y, Scalar { key: TWO_KEY }) == rules.difference(available.y, place.size.y)
        }),
{
    let shape = rules.quotient(picture.x, picture.y);
    let window = rules.quotient(available.x, available.y);
    if shape.lt(window) {
        assert(rules.product(available.y, shape).le(rules.product(available.y, window)));
    }
}

/// The corner where the picture starts shows its first pixel, and the other corner
/// the end of its last; the first coordinate runs along the width, the second along
/// the height.
pub proof fn law_window_corners_show_picture_corners(rules: ArithRules, at: Vec2, place: Place, width: usize, height: usize)
    requires
        rules.keeps_ones(),
        rules.keeps_zeros(),
        rules.keeps_selves(),
        place.offset.x.is_finite() && place.offset.y.is_finite(),
        place.size.x.is_finite() && !place.size.x.is_zero(),
        place.size.y.is_finite() && !place.size.y.is_zero(),
        rules.of_count(width).is_finite() && rules.of_count(height).is_finite(),
    ensures
        at.x == place.offset.x ==> rules.pointed_at(at, place, width, height).x == Scalar::zero(),
        at.y == place.offset.y ==> rules.pointed_at(at, place, width, height).y == Scalar::zero(),
        rules.difference(at.x, place.offset.x) == place.size.x ==> rules.pointed_at(at, place, width, height).x
            == rules.of_count(width),
        rules.difference(at.y, place.offset.y) == place.size.y ==> rules.pointed_at(at, place, width, height).y
            == rules.of_count(height),
{
}

} // verus!
