//! Integer plane geometry.
//!
//! Positions are whole numbers of world units held in `i64`. A scale is a
//! fixed-point factor: the component `s` stands for `s / SCALE_ONE`. Every
//! quotient is rounded towards negative infinity, and a coordinate that would
//! leave the `i64` range is pinned to the nearest end of it, so that each
//! operation is defined on every input.

use vstd::prelude::*;
use vstd::arithmetic::div_mod::lemma_fundamental_div_mod_converse;

verus! {

/// The scale component that stands for the factor one.
pub const SCALE_ONE: i32 = 65536;

/// `v` pinned to the range of `i64`.
pub open spec fn clamp_i64(v: int) -> int {
    if v < i64::MIN as int {
        i64::MIN as int
    } else if v > i64::MAX as int {
        i64::MAX as int
    } else {
        v
    }
}

/// `v` pinned to the range of `i32`.
pub open spec fn clamp_i32(v: int) -> int {
    if v < i32::MIN as int {
        i32::MIN as int
    } else if v > i32::MAX as int {
        i32::MAX as int
    } else {
        v
    }
}

/// The quotient `a / b` rounded towards negative infinity, for `b != 0`.
pub open spec fn floor_div(a: int, b: int) -> int
    recommends
        b != 0,
{
    if b > 0 {
        a / b
    } else {
        (-a) / (-b)
    }
}

/// `floor_div(a, b)` is the one integer `q` with `q * b <= a < (q + 1) * b`
/// when `b` is positive, and with `(q + 1) * b < a <= q * b` when it is negative.
pub proof fn lemma_floor_div_bounds(a: int, b: int)
    requires
        b != 0,
    ensures
        b > 0 ==> floor_div(a, b) * b <= a < (floor_div(a, b) + 1) * b,
        b < 0 ==> (floor_div(a, b) + 1) * b < a <= floor_div(a, b) * b,
{
    if b > 0 {
        assert((a / b) * b <= a < (a / b + 1) * b) by (nonlinear_arith)
            requires
                b > 0,
        ;
    } else {
        let n: int = -a;
        let d: int = -b;
        assert((n / d) * d <= n < (n / d + 1) * d) by (nonlinear_arith)
            requires
                d > 0,
        ;
        assert((n / d) * b == -((n / d) * d)) by (nonlinear_arith)
            requires
                b == -d,
        ;
        assert((n / d + 1) * b == -((n / d + 1) * d)) by (nonlinear_arith)
            requires
                b == -d,
        ;
    }
}

/// A quotient by a multiple of the divisor is exact: `floor_div(v * b, b) == v`.
pub proof fn lemma_floor_div_of_multiple(v: int, b: int)
    requires
        b != 0,
    ensures
        floor_div(v * b, b) == v,
{
    if b > 0 {
        lemma_fundamental_div_mod_converse(v * b, b, v, 0);
    } else {
        assert(-(v * b) == v * (-b)) by (nonlinear_arith);
        lemma_fundamental_div_mod_converse(v * (-b), -b, v, 0);
    }
}

pub(crate) fn saturate_i64(v: i128) -> (r: i64)
    ensures
        r as int == clamp_i64(v as int),
{
    if v < i64::MIN as i128 {
        i64::MIN
    } else if v > i64::MAX as i128 {
        i64::MAX
    } else {
        v as i64
    }
}

pub(crate) fn saturate_i32(v: i128) -> (r: i32)
    ensures
        r as int == clamp_i32(v as int),
{
    if v < i32::MIN as i128 {
        i32::MIN
    } else if v > i32::MAX as i128 {
        i32::MAX
    } else {
        v as i32
    }
}

/// The product of a 65-bit and a 33-bit quantity, which always fits in `i128`.
pub(crate) fn mul_wide(a: i128, b: i128) -> (r: i128)
    requires
        -0x2_0000_0000_0000_0000 <= a <= 0x2_0000_0000_0000_0000,
        -0x1_0000_0000 <= b <= 0x1_0000_0000,
    ensures
        r as int == a as int * b as int,
        -0x2_0000_0000_0000_0000_0000_0000 <= r <= 0x2_0000_0000_0000_0000_0000_0000,
{
    assert(-0x2_0000_0000_0000_0000_0000_0000 <= a as int * b as int
        <= 0x2_0000_0000_0000_0000_0000_0000) by (nonlinear_arith)
        requires
            -0x2_0000_0000_0000_0000 <= a <= 0x2_0000_0000_0000_0000,
            -0x1_0000_0000 <= b <= 0x1_0000_0000,
    ;
    a * b
}

pub(crate) fn floor_div_wide(a: i128, b: i128) -> (q: i128)
    requires
        b != 0,
        -0x2_0000_0000_0000_0000_0000_0000 <= a <= 0x2_0000_0000_0000_0000_0000_0000,
        -0x1_0000_0000 <= b <= 0x1_0000_0000,
    ensures
        q as int == floor_div(a as int, b as int),
        -0x2_0000_0000_0000_0000_0000_0000 <= q <= 0x2_0000_0000_0000_0000_0000_0000,
{
    let n: i128 = if b > 0 { a } else { -a };
    let d: i128 = if b > 0 { b } else { -b };
    proof {
        lemma_floor_div_bounds(a as int, b as int);
        let f: int = floor_div(a as int, b as int);
        assert(f == n as int / d as int);
        assert(f * d <= n < (f + 1) * d) by (nonlinear_arith)
            requires
                f == n as int / d as int,
                d > 0,
        ;
        assert(-0x2_0000_0000_0000_0000_0000_0000 <= f <= 0x2_0000_0000_0000_0000_0000_0000)
            by (nonlinear_arith)
            requires
                f * d <= n < (f + 1) * d,
                d >= 1,
                -0x2_0000_0000_0000_0000_0000_0000 <= n <= 0x2_0000_0000_0000_0000_0000_0000,
        ;
    }
    match n.checked_div_euclid(d) {
        Some(q) => q,
        None => 0,
    }
}

/// A point of the plane, or a displacement between two points.
#[derive(Clone, Copy, Debug, PartialEq, Eq, Hash, Structural)]
pub struct Point2 {
    pub x: i64,
    pub y: i64,
}

/// A per-axis scale in units of `1 / SCALE_ONE`.
#[derive(Clone, Copy, Debug, PartialEq, Eq, Hash, Structural)]
pub struct Scale2 {
    pub x: i32,
    pub y: i32,
}

/// Where a frame of reference sits in the space around it: the position of its
/// origin there and the factor by which its axes are stretched. Rotation is
/// not modelled.
#[derive(Clone, Copy, Debug, PartialEq, Eq, Hash, Structural)]
pub struct Placement {
    pub translation: Point2,
    pub scale: Scale2,
}

/// The sum of two coordinates, pinned to the `i64` range.
pub open spec fn add_coord(a: i64, b: i64) -> i64 {
    clamp_i64(a + b) as i64
}

/// The difference of two coordinates, pinned to the `i64` range.
pub open spec fn sub_coord(a: i64, b: i64) -> i64 {
    clamp_i64(a - b) as i64
}

/// A local coordinate `v` carried out of a frame with origin `origin` and scale `scale`.
pub open spec fn outward(origin: i64, scale: i32, v: i64) -> i64 {
    clamp_i64(origin + floor_div(scale * v, SCALE_ONE as int)) as i64
}

/// A coordinate `w` of the surrounding space carried into a frame with origin
/// `origin` and a scale other than zero.
pub open spec fn inward(origin: i64, scale: i32, w: i64) -> i64
    recommends
        scale != 0,
{
    clamp_i64(floor_div((w - origin) * SCALE_ONE, scale as int)) as i64
}

/// The product of two scales.
pub open spec fn scale_product(outer: i32, inner: i32) -> i32 {
    clamp_i32(floor_div(outer * inner, SCALE_ONE as int)) as i32
}

/// Whether the coordinate `c` of the surrounding space, carried exactly into a
/// frame with origin `origin` and scale `scale`, lies in the half-open range
/// from `min` to `max`. The quotient `(c - origin) * SCALE_ONE / scale` is
/// compared without rounding; a frame of scale zero holds no point.
pub open spec fn axis_covers(min: i64, max: i64, origin: i64, scale: i32, c: i64) -> bool {
    let n: int = (c - origin) * SCALE_ONE;
    if scale > 0 {
        min * scale <= n < max * scale
    } else if scale < 0 {
        max * scale < n <= min * scale
    } else {
        false
    }
}

/// Whether the point `c` falls inside the rectangle `bounds`, given by its
/// minimum and maximum corner in the frame placed at `at`. The minimum edges
/// belong to the rectangle and the maximum edges do not.
pub open spec fn covers(bounds: (Point2, Point2), at: Placement, c: Point2) -> bool {
    &&& axis_covers(bounds.0.x, bounds.1.x, at.translation.x, at.scale.x, c.x)
    &&& axis_covers(bounds.0.y, bounds.1.y, at.translation.y, at.scale.y, c.y)
}

/// The world position under a pointer at `screen` on a viewport of size
/// `viewport` along one axis, seen through a camera at `origin` with scale
/// `scale`. The viewport is centred on the camera, so the pointer sits
/// `screen - viewport / 2` from it before the camera's scale applies.
pub open spec fn pointer_coord(origin: i64, scale: i32, viewport: i64, screen: i64) -> i64 {
    clamp_i64(origin + floor_div(scale * (2 * screen - viewport), 2 * SCALE_ONE)) as i64
}

/// The world position under a pointer at `screen` on a viewport of size
/// `viewport`, seen through the camera placed at `camera`.
pub open spec fn pointer_world(camera: Placement, viewport: Point2, screen: Point2) -> Point2 {
    Point2 {
        x: pointer_coord(camera.translation.x, camera.scale.x, viewport.x, screen.x),
        y: pointer_coord(camera.translation.y, camera.scale.y, viewport.y, screen.y),
    }
}

pub(crate) fn add_coord_exec(a: i64, b: i64) -> (r: i64)
    ensures
        r == add_coord(a, b),
{
    saturate_i64(a as i128 + b as i128)
}

pub(crate) fn sub_coord_exec(a: i64, b: i64) -> (r: i64)
    ensures
        r == sub_coord(a, b),
{
    saturate_i64(a as i128 - b as i128)
}

pub(crate) fn outward_exec(origin: i64, scale: i32, v: i64) -> (r: i64)
    ensures
        r == outward(origin, scale, v),
{
    let p: i128 = mul_wide(v as i128, scale as i128);
    assert(p as int == scale as int * v as int) by (nonlinear_arith)
        requires
            p as int == v as int * scale as int,
    ;
    let q: i128 = floor_div_wide(p, SCALE_ONE as i128);
    saturate_i64(origin as i128 + q)
}

pub(crate) fn inward_exec(origin: i64, scale: i32, w: i64) -> (r: i64)
    requires
        scale != 0,
    ensures
        r == inward(origin, scale, w),
{
    let n: i128 = mul_wide(w as i128 - origin as i128, SCALE_ONE as i128);
    let q: i128 = floor_div_wide(n, scale as i128);
    saturate_i64(q)
}

pub(crate) fn scale_product_exec(outer: i32, inner: i32) -> (r: i32)
    ensures
        r == scale_product(outer, inner),
{
    let p: i128 = mul_wide(outer as i128, inner as i128);
    let q: i128 = floor_div_wide(p, SCALE_ONE as i128);
    saturate_i32(q)
}

pub(crate) fn axis_covers_exec(min: i64, max: i64, origin: i64, scale: i32, c: i64) -> (r: bool)
    ensures
        r == axis_covers(min, max, origin, scale, c),
{
    let n: i128 = mul_wide(c as i128 - origin as i128, SCALE_ONE as i128);
    let lo: i128 = mul_wide(min as i128, scale as i128);
    let hi: i128 = mul_wide(max as i128, scale as i128);
    if scale > 0 {
        lo <= n && n < hi
    } else if scale < 0 {
        hi < n && n <= lo
    } else {
        false
    }
}

pub(crate) fn pointer_coord_exec(origin: i64, scale: i32, viewport: i64, screen: i64) -> (r: i64)
    ensures
        r == pointer_coord(origin, scale, viewport, screen),
{
    let across: i128 = 2 * (screen as i128) - viewport as i128;
    let p: i128 = mul_wide(across, scale as i128);
    assert(p as int == scale as int * (2 * screen as int - viewport as int)) by (nonlinear_arith)
        requires
            p as int == across as int * scale as int,
            across as int == 2 * screen as int - viewport as int,
    ;
    let q: i128 = floor_div_wide(p, 2 * (SCALE_ONE as i128));
    saturate_i64(origin as i128 + q)
}

impl Point2 {
    /// The point with the given coordinates.
    pub fn new(x: i64, y: i64) -> (p: Point2)
        ensures
            p == (Point2 { x, y }),
    {
        Point2 { x, y }
    }

    /// The sum of two displacements, each coordinate pinned to the `i64` range.
    pub open spec fn plus(self, other: Point2) -> Point2 {
        Point2 { x: add_coord(self.x, other.x), y: add_coord(self.y, other.y) }
    }

    /// The displacement from `other` to `self`, each coordinate pinned to the `i64` range.
    pub open spec fn minus(self, other: Point2) -> Point2 {
        Point2 { x: sub_coord(self.x, other.x), y: sub_coord(self.y, other.y) }
    }

    /// Adds two displacements.
    pub fn saturating_add(self, other: Point2) -> (p: Point2)
        ensures
            p == self.plus(other),
    {
        Point2 { x: add_coord_exec(self.x, other.x), y: add_coord_exec(self.y, other.y) }
    }

    /// Subtracts `other` from `self`.
    pub fn saturating_sub(self, other: Point2) -> (p: Point2)
        ensures
            p == self.minus(other),
    {
        Point2 { x: sub_coord_exec(self.x, other.x), y: sub_coord_exec(self.y, other.y) }
    }
}

impl Default for Point2 {
    fn default() -> (p: Point2)
        ensures
            p == (Point2 { x: 0, y: 0 }),
    {
        Point2 { x: 0, y: 0 }
    }
}

impl Scale2 {
    /// The scale that leaves every length as it is.
    pub open spec fn one() -> Scale2 {
        Scale2 { x: SCALE_ONE, y: SCALE_ONE }
    }
}

impl Placement {
    /// The placement of a frame that coincides with the space around it.
    pub open spec fn identity_spec() -> Placement {
        Placement { translation: Point2 { x: 0, y: 0 }, scale: Scale2::one() }
    }

    /// Whether points of the surrounding space can be carried into this frame.
    pub open spec fn is_invertible(self) -> bool {
        self.scale.x != 0 && self.scale.y != 0
    }

    /// The point `p` of this frame, seen from the surrounding space.
    pub open spec fn to_world(self, p: Point2) -> Point2 {
        Point2 {
            x: outward(self.translation.x, self.scale.x, p.x),
            y: outward(self.translation.y, self.scale.y, p.y),
        }
    }

    /// The point `w` of the surrounding space, seen from this frame.
    pub open spec fn to_local(self, w: Point2) -> Point2
        recommends
            self.is_invertible(),
    {
        Point2 {
            x: inward(self.translation.x, self.scale.x, w.x),
            y: inward(self.translation.y, self.scale.y, w.y),
        }
    }

    /// The placement, in the surrounding space, of a frame placed at `inner`
    /// within this one.
    pub open spec fn composed(self, inner: Placement) -> Placement {
        Placement {
            translation: self.to_world(inner.translation),
            scale: Scale2 {
                x: scale_product(self.scale.x, inner.scale.x),
                y: scale_product(self.scale.y, inner.scale.y),
            },
        }
    }

    /// The placement of a frame that coincides with the space around it.
    pub fn identity() -> (p: Placement)
        ensures
            p == Placement::identity_spec(),
    {
        Placement {
            translation: Point2 { x: 0, y: 0 },
            scale: Scale2 { x: SCALE_ONE, y: SCALE_ONE },
        }
    }

    /// A frame of unit scale with its origin at `translation`.
    pub fn at(translation: Point2) -> (p: Placement)
        ensures
            p == (Placement { translation, scale: Scale2::one() }),
    {
        Placement { translation, scale: Scale2 { x: SCALE_ONE, y: SCALE_ONE } }
    }

    /// Carries a point of this frame out into the surrounding space.
    pub fn transform_point(&self, p: Point2) -> (w: Point2)
        ensures
            w == self.to_world(p),
    {
        Point2 {
            x: outward_exec(self.translation.x, self.scale.x, p.x),
            y: outward_exec(self.translation.y, self.scale.y, p.y),
        }
    }

    /// Carries a point of the surrounding space into this frame, where the
    /// frame has a scale other than zero on both axes.
    pub fn inverse_transform_point(&self, w: Point2) -> (p: Option<Point2>)
        ensures
            p == (if self.is_invertible() {
                Some(self.to_local(w))
            } else {
                None
            }),
    {
        if self.scale.x != 0 && self.scale.y != 0 {
            Some(
                Point2 {
                    x: inward_exec(self.translation.x, self.scale.x, w.x),
                    y: inward_exec(self.translation.y, self.scale.y, w.y),
                },
            )
        } else {
            None
        }
    }

    /// Places the frame `inner`, given within this frame, in the surrounding space.
    pub fn compose(&self, inner: &Placement) -> (p: Placement)
        ensures
            p == self.composed(*inner),
    {
        Placement {
            translation: self.transform_point(inner.translation),
            scale: Scale2 {
                x: scale_product_exec(self.scale.x, inner.scale.x),
                y: scale_product_exec(self.scale.y, inner.scale.y),
            },
        }
    }

    /// The world position under a pointer at `screen` on a viewport of size
    /// `viewport`, seen through a camera placed at `self`.
    pub fn pointer_to_world(&self, viewport: Point2, screen: Point2) -> (w: Point2)
        ensures
            w == pointer_world(*self, viewport, screen),
    {
        Point2 {
            x: pointer_coord_exec(self.translation.x, self.scale.x, viewport.x, screen.x),
            y: pointer_coord_exec(self.translation.y, self.scale.y, viewport.y, screen.y),
        }
    }
}

/// A frame that coincides with the space around it changes no point and no
/// placement.
pub proof fn lemma_identity_placement(p: Point2, inner: Placement)
    ensures
        Placement::identity_spec().to_world(p) == p,
        Placement::identity_spec().to_local(p) == p,
        Placement::identity_spec().composed(inner) == inner,
{
    lemma_floor_div_of_multiple(p.x as int, SCALE_ONE as int);
    lemma_floor_div_of_multiple(p.y as int, SCALE_ONE as int);
    lemma_floor_div_of_multiple(inner.translation.x as int, SCALE_ONE as int);
    lemma_floor_div_of_multiple(inner.translation.y as int, SCALE_ONE as int);
    lemma_floor_div_of_multiple(inner.scale.x as int, SCALE_ONE as int);
    lemma_floor_div_of_multiple(inner.scale.y as int, SCALE_ONE as int);
    assert(SCALE_ONE * p.x == p.x * SCALE_ONE);
    assert(SCALE_ONE * p.y == p.y * SCALE_ONE);
}

/// In a frame of unit scale, a rectangle covers exactly the points that lie
/// at or beyond its minimum corner and short of its maximum corner, measured
/// from the frame's origin. A point on a maximum edge is not covered.
pub proof fn lemma_covers_at_unit_scale(bounds: (Point2, Point2), at: Placement, c: Point2)
    requires
        at.scale == Scale2::one(),
    ensures
        covers(bounds, at, c) <==> {
            &&& bounds.0.x <= c.x - at.translation.x < bounds.1.x
            &&& bounds.0.y <= c.y - at.translation.y < bounds.1.y
        },
        c.x - at.translation.x == bounds.1.x ==> !covers(bounds, at, c),
        c.y - at.translation.y == bounds.1.y ==> !covers(bounds, at, c),
{
}

/// Whether the point `c` falls inside the rectangle `bounds` of the frame placed at `at`.
pub fn hit_test(bounds: &(Point2, Point2), at: &Placement, c: Point2) -> (hit: bool)
    ensures
        hit == covers(*bounds, *at, c),
{
    axis_covers_exec(bounds.0.x, bounds.1.x, at.translation.x, at.scale.x, c.x)
        && axis_covers_exec(bounds.0.y, bounds.1.y, at.translation.y, at.scale.y, c.y)
}

} // verus!
