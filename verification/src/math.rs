//! Plain geometric values: fixed-point points, colors, triangles, and affine
//! transforms.
//!
//! Every coordinate is an `i64` counting thousandths of a unit, so the values
//! are exact and every operation on them is checked for overflow.

use vstd::prelude::*;

verus! {

/// Bound on the magnitude of a coordinate or transform coefficient that may
/// be fed to a transform. Chosen so that a full affine application
/// (three products plus a translation) stays far inside `i64`.
pub const COORD_LIMIT: i64 = 0x4000_0000;

/// Whether a single coordinate is small enough to take part in a transform.
pub open spec fn coord_ok(c: i64) -> bool {
    -COORD_LIMIT <= c && c <= COORD_LIMIT
}

/// A point on a curve, given by its one-dimensional curve parameter.
#[derive(Clone, Copy, PartialEq, Eq, Structural, Debug)]
pub struct Point1 {
    /// The curve parameter, in thousandths.
    pub t: i64,
}

/// A point or vector in three-dimensional space, in thousandths of a unit.
#[derive(Clone, Copy, PartialEq, Eq, Structural, Debug)]
pub struct Point3 {
    pub x: i64,
    pub y: i64,
    pub z: i64,
}

impl Point3 {
    /// Whether all three coordinates are small enough for a transform.
    pub open spec fn bounded(self) -> bool {
        coord_ok(self.x) && coord_ok(self.y) && coord_ok(self.z)
    }
}

impl View for Point3 {
    type V = Point3;

    open spec fn view(&self) -> Point3 {
        *self
    }
}

/// An RGBA color with eight bits per channel.
#[derive(Clone, Copy, PartialEq, Eq, Structural, Debug)]
pub struct Color {
    pub r: u8,
    pub g: u8,
    pub b: u8,
    pub a: u8,
}

/// A triangle given by its three corners.
#[derive(Clone, Copy, PartialEq, Eq, Structural, Debug)]
pub struct Triangle {
    pub a: Point3,
    pub b: Point3,
    pub c: Point3,
}

impl Triangle {
    /// Whether all corners are small enough for a transform.
    pub open spec fn bounded(self) -> bool {
        self.a.bounded() && self.b.bounded() && self.c.bounded()
    }
}

/// An affine transform: a linear part given row by row, and a translation.
///
/// Rotations by constructible angles, scalings, reflections and translations
/// are all expressed this way.
#[derive(Clone, Copy, PartialEq, Eq, Structural, Debug)]
pub struct Transform {
    pub xx: i64,
    pub xy: i64,
    pub xz: i64,
    pub yx: i64,
    pub yy: i64,
    pub yz: i64,
    pub zx: i64,
    pub zy: i64,
    pub zz: i64,
    pub translation: Point3,
}

impl Transform {
    /// Whether all coefficients are small enough to apply to a bounded point.
    pub open spec fn bounded(self) -> bool {
        coord_ok(self.xx) && coord_ok(self.xy) && coord_ok(self.xz)
            && coord_ok(self.yx) && coord_ok(self.yy) && coord_ok(self.yz)
            && coord_ok(self.zx) && coord_ok(self.zy) && coord_ok(self.zz)
            && self.translation.bounded()
    }

    /// The mathematical result of applying the linear part to a vector.
    pub open spec fn spec_transform_vector(self, v: Point3) -> Point3 {
        Point3 {
            x: (self.xx * v.x + self.xy * v.y + self.xz * v.z) as i64,
            y: (self.yx * v.x + self.yy * v.y + self.yz * v.z) as i64,
            z: (self.zx * v.x + self.zy * v.y + self.zz * v.z) as i64,
        }
    }

    /// The mathematical result of applying the whole transform to a point.
    pub open spec fn spec_transform_point(self, p: Point3) -> Point3 {
        Point3 {
            x: (self.xx * p.x + self.xy * p.y + self.xz * p.z
                + self.translation.x) as i64,
            y: (self.yx * p.x + self.yy * p.y + self.yz * p.z
                + self.translation.y) as i64,
            z: (self.zx * p.x + self.zy * p.y + self.zz * p.z
                + self.translation.z) as i64,
        }
    }

    /// Applies the linear part of the transform to a vector.
    pub fn transform_vector(&self, v: &Point3) -> (r: Point3)
        requires
            self.bounded(),
            v.bounded(),
        ensures
            r == self.spec_transform_vector(*v),
    {
        proof {
            lemma_row_in_range(self.xx as int, self.xy as int, self.xz as int,
                v.x as int, v.y as int, v.z as int);
            lemma_row_in_range(self.yx as int, self.yy as int, self.yz as int,
                v.x as int, v.y as int, v.z as int);
            lemma_row_in_range(self.zx as int, self.zy as int, self.zz as int,
                v.x as int, v.y as int, v.z as int);
        }
        Point3 {
            x: self.xx * v.x + self.xy * v.y + self.xz * v.z,
            y: self.yx * v.x + self.yy * v.y + self.yz * v.z,
            z: self.zx * v.x + self.zy * v.y + self.zz * v.z,
        }
    }

    /// Applies the transform to a point.
    pub fn transform_point(&self, p: &Point3) -> (r: Point3)
        requires
            self.bounded(),
            p.bounded(),
        ensures
            r == self.spec_transform_point(*p),
    {
        proof {
            lemma_row_in_range(self.xx as int, self.xy as int, self.xz as int,
                p.x as int, p.y as int, p.z as int);
            lemma_row_in_range(self.yx as int, self.yy as int, self.yz as int,
                p.x as int, p.y as int, p.z as int);
            lemma_row_in_range(self.zx as int, self.zy as int, self.zz as int,
                p.x as int, p.y as int, p.z as int);
        }
        Point3 {
            x: self.xx * p.x + self.xy * p.y + self.xz * p.z + self.translation.x,
            y: self.yx * p.x + self.yy * p.y + self.yz * p.z + self.translation.y,
            z: self.zx * p.x + self.zy * p.y + self.zz * p.z + self.translation.z,
        }
    }

    /// The mathematical result of transforming a triangle corner by corner.
    pub open spec fn spec_transform_triangle(self, t: Triangle) -> Triangle {
        Triangle {
            a: self.spec_transform_point(t.a),
            b: self.spec_transform_point(t.b),
            c: self.spec_transform_point(t.c),
        }
    }

    /// Transforms a triangle corner by corner.
    pub fn transform_triangle(&self, t: &Triangle) -> (r: Triangle)
        requires
            self.bounded(),
            t.bounded(),
        ensures
            r == self.spec_transform_triangle(*t),
    {
        Triangle {
            a: self.transform_point(&t.a),
            b: self.transform_point(&t.b),
            c: self.transform_point(&t.c),
        }
    }
}

/// One row of an affine application stays far inside `i64` when every operand
/// is bounded by `COORD_LIMIT`.
proof fn lemma_row_in_range(m0: int, m1: int, m2: int, v0: int, v1: int, v2: int)
    requires
        -COORD_LIMIT <= m0 <= COORD_LIMIT,
        -COORD_LIMIT <= m1 <= COORD_LIMIT,
        -COORD_LIMIT <= m2 <= COORD_LIMIT,
        -COORD_LIMIT <= v0 <= COORD_LIMIT,
        -COORD_LIMIT <= v1 <= COORD_LIMIT,
        -COORD_LIMIT <= v2 <= COORD_LIMIT,
    ensures
        i64::MIN <= m0 * v0 <= i64::MAX,
        i64::MIN <= m1 * v1 <= i64::MAX,
        i64::MIN <= m2 * v2 <= i64::MAX,
        i64::MIN <= m0 * v0 + m1 * v1 <= i64::MAX,
        i64::MIN <= m0 * v0 + m1 * v1 + m2 * v2 <= i64::MAX,
        i64::MIN <= m0 * v0 + m1 * v1 + m2 * v2 - COORD_LIMIT,
        m0 * v0 + m1 * v1 + m2 * v2 + COORD_LIMIT <= i64::MAX,
{
    lemma_product_bound(m0, v0);
    lemma_product_bound(m1, v1);
    lemma_product_bound(m2, v2);
}

/// The product of two values bounded by `COORD_LIMIT` is bounded by its square.
proof fn lemma_product_bound(a: int, b: int)
    requires
        -COORD_LIMIT <= a <= COORD_LIMIT,
        -COORD_LIMIT <= b <= COORD_LIMIT,
    ensures
        -(COORD_LIMIT * COORD_LIMIT) <= a * b <= COORD_LIMIT * COORD_LIMIT,
{
    assert(-(COORD_LIMIT * COORD_LIMIT) <= a * b <= COORD_LIMIT * COORD_LIMIT)
        by (nonlinear_arith)
        requires
            -COORD_LIMIT <= a <= COORD_LIMIT,
            -COORD_LIMIT <= b <= COORD_LIMIT,
    ;
}

} // verus!
