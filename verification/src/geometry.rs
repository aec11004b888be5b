//! Geometric object kinds: curves and surfaces, with their behaviour under
//! affine transforms.

use vstd::prelude::*;

use crate::math::{Point3, Transform};

verus! {

/// A straight line, given by a point on it and its direction.
#[derive(Clone, Copy, PartialEq, Eq, Structural, Debug)]
pub struct Line {
    pub origin: Point3,
    pub direction: Point3,
}

/// A circle, given by its center and two spanning radius vectors.
#[derive(Clone, Copy, PartialEq, Eq, Structural, Debug)]
pub struct Circle {
    pub center: Point3,
    pub a: Point3,
    pub b: Point3,
}

/// The global one-dimensional path that a curve follows.
#[derive(Clone, Copy, PartialEq, Eq, Structural, Debug)]
pub enum GlobalPath {
    Circle(Circle),
    Line(Line),
}

/// A curve: a path through space, a store-resident object kind.
#[derive(Clone, Copy, PartialEq, Eq, Structural, Debug)]
pub struct Curve {
    pub path: GlobalPath,
}

/// A surface swept out from an origin by two spanning vectors, a
/// store-resident object kind.
#[derive(Clone, Copy, PartialEq, Eq, Structural, Debug)]
pub struct Surface {
    pub origin: Point3,
    pub u: Point3,
    pub v: Point3,
}

impl View for Curve {
    type V = Curve;

    open spec fn view(&self) -> Curve {
        *self
    }
}

impl View for Surface {
    type V = Surface;

    open spec fn view(&self) -> Surface {
        *self
    }
}

/// Geometry that an affine transform can be applied to.
pub trait TransformObject: Sized {
    /// Whether the object's coordinates are small enough for a transform.
    spec fn bounded(self) -> bool;

    /// The mathematical result of applying the transform.
    spec fn spec_transform(self, transform: Transform) -> Self;

    /// Applies the transform to the object's own geometric data.
    fn transform(self, transform: &Transform) -> (r: Self)
        requires
            transform.bounded(),
            self.bounded(),
        ensures
            r == self.spec_transform(*transform),
    ;
}

impl TransformObject for Line {
    open spec fn bounded(self) -> bool {
        self.origin.bounded() && self.direction.bounded()
    }

    open spec fn spec_transform(self, transform: Transform) -> Self {
        Line {
            origin: transform.spec_transform_point(self.origin),
            direction: transform.spec_transform_vector(self.direction),
        }
    }

    fn transform(self, transform: &Transform) -> (r: Self) {
        Line {
            origin: transform.transform_point(&self.origin),
            direction: transform.transform_vector(&self.direction),
        }
    }
}

impl TransformObject for Circle {
    open spec fn bounded(self) -> bool {
        self.center.bounded() && self.a.bounded() && self.b.bounded()
    }

    open spec fn spec_transform(self, transform: Transform) -> Self {
        Circle {
            center: transform.spec_transform_point(self.center),
            a: transform.spec_transform_vector(self.a),
            b: transform.spec_transform_vector(self.b),
        }
    }

    fn transform(self, transform: &Transform) -> (r: Self) {
        Circle {
            center: transform.transform_point(&self.center),
            a: transform.transform_vector(&self.a),
            b: transform.transform_vector(&self.b),
        }
    }
}

impl TransformObject for GlobalPath {
    open spec fn bounded(self) -> bool {
        match self {
            GlobalPath::Circle(circle) => circle.bounded(),
            GlobalPath::Line(line) => line.bounded(),
        }
    }

    open spec fn spec_transform(self, transform: Transform) -> Self {
        match self {
            GlobalPath::Circle(circle) => GlobalPath::Circle(
                circle.spec_transform(transform),
            ),
            GlobalPath::Line(line) => GlobalPath::Line(
                line.spec_transform(transform),
            ),
        }
    }

    fn transform(self, transform: &Transform) -> (r: Self) {
        match self {
            GlobalPath::Circle(circle) => {
                GlobalPath::Circle(circle.transform(transform))
            },
            GlobalPath::Line(line) => {
                GlobalPath::Line(line.transform(transform))
            },
        }
    }
}

impl TransformObject for Curve {
    open spec fn bounded(self) -> bool {
        self.path.bounded()
    }

    open spec fn spec_transform(self, transform: Transform) -> Self {
        Curve { path: self.path.spec_transform(transform) }
    }

    fn transform(self, transform: &Transform) -> (r: Self) {
        Curve { path: self.path.transform(transform) }
    }
}

impl TransformObject for Surface {
    open spec fn bounded(self) -> bool {
        self.origin.bounded() && self.u.bounded() && self.v.bounded()
    }

    open spec fn spec_transform(self, transform: Transform) -> Self {
        Surface {
            origin: transform.spec_transform_point(self.origin),
            u: transform.spec_transform_vector(self.u),
            v: transform.spec_transform_vector(self.v),
        }
    }

    fn transform(self, transform: &Transform) -> (r: Self) {
        Surface {
            origin: transform.transform_point(&self.origin),
            u: transform.transform_vector(&self.u),
            v: transform.transform_vector(&self.v),
        }
    }
}

} // verus!
