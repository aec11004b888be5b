//! The transform propagator: pointwise geometry, and re-deduplication of
//! transformed objects that coincide.

use brep_core::geometry::{Circle, Curve, GlobalPath, Line, TransformObject};
use brep_core::math::{Color, Point3, Transform, Triangle};
use brep_core::shape::Shape;
use brep_core::store::{Handle, LocalForm};
use brep_core::topology::{Cycle, CyclesInFace, Edge, EdgeEnds, Face};
use brep_core::transform::{transform, transform_cycles};

fn point3(x: i64, y: i64, z: i64) -> Point3 {
    Point3 { x, y, z }
}

fn identity_with_translation(translation: Point3) -> Transform {
    Transform {
        xx: 1,
        xy: 0,
        xz: 0,
        yx: 0,
        yy: 1,
        yz: 0,
        zx: 0,
        zy: 0,
        zz: 1,
        translation,
    }
}

fn drop_z() -> Transform {
    Transform {
        xx: 1,
        xy: 0,
        xz: 0,
        yx: 0,
        yy: 1,
        yz: 0,
        zx: 0,
        zy: 0,
        zz: 0,
        translation: point3(0, 0, 0),
    }
}

fn closed_edge_on(shape: &mut Shape, curve: Curve) -> Handle<Edge> {
    let ch = shape.merge(curve).unwrap();
    shape.merge(Edge::new(ch, EdgeEnds::Closed)).unwrap()
}

fn line_curve(z: i64) -> Curve {
    Curve {
        path: GlobalPath::Line(Line {
            origin: point3(0, 0, z),
            direction: point3(1000, 0, 0),
        }),
    }
}

#[test]
fn global_path_transforms_pointwise() {
    let t = identity_with_translation(point3(10, 20, 30));
    let line = GlobalPath::Line(Line {
        origin: point3(1, 2, 3),
        direction: point3(1000, 0, 0),
    });
    // The origin is translated; the direction, being a vector, is not.
    assert_eq!(
        line.transform(&t),
        GlobalPath::Line(Line {
            origin: point3(11, 22, 33),
            direction: point3(1000, 0, 0),
        })
    );

    let circle = GlobalPath::Circle(Circle {
        center: point3(0, 0, 0),
        a: point3(500, 0, 0),
        b: point3(0, 500, 0),
    });
    assert_eq!(
        circle.transform(&t),
        GlobalPath::Circle(Circle {
            center: point3(10, 20, 30),
            a: point3(500, 0, 0),
            b: point3(0, 500, 0),
        })
    );
}

#[test]
fn triangle_faces_are_transformed_pointwise() {
    let mut shape = Shape::new();
    let triangle = Triangle {
        a: point3(0, 0, 0),
        b: point3(1000, 0, 0),
        c: point3(0, 1000, 0),
    };
    let color = Color {
        r: 1,
        g: 2,
        b: 3,
        a: 255,
    };
    shape
        .merge(Face::Triangles(vec![(triangle, color)]))
        .unwrap();

    let t = identity_with_translation(point3(0, 0, 500));
    let result = transform(&shape, &t);
    assert_eq!(result.len(), 1);
    match &result[0] {
        Face::Triangles(triangles) => {
            assert_eq!(triangles.len(), 1);
            assert_eq!(
                triangles[0].0,
                Triangle {
                    a: point3(0, 0, 500),
                    b: point3(1000, 0, 500),
                    c: point3(0, 1000, 500),
                }
            );
            assert_eq!(triangles[0].1, color);
        }
        Face::Face(_) => panic!("expected a triangle face"),
    }
}

#[test]
fn coinciding_transformed_curves_share_one_handle() {
    // Two closed edges whose curves differ only in height.
    let mut shape = Shape::new();
    let e1 = closed_edge_on(&mut shape, line_curve(0));
    let e2 = closed_edge_on(&mut shape, line_curve(1000));
    assert_ne!(
        e1.obj.curve.canonical, e2.obj.curve.canonical,
        "the two curves are distinct before the transform"
    );
    let cycle = Cycle::new(vec![e1, e2]);
    let hc = shape.merge(cycle).unwrap();
    let cycles = CyclesInFace {
        cycles: vec![LocalForm::new(hc.obj.clone(), hc)],
    };

    // A projection that drops the height maps both curves onto one.
    let result = transform_cycles(&cycles, &drop_z());

    let out = &result.cycles[0].canonical.obj.edges;
    assert_eq!(out.len(), 2);
    let c1 = &out[0].canonical.obj.curve.canonical;
    let c2 = &out[1].canonical.obj.curve.canonical;
    assert_eq!(c1.obj, line_curve(0));
    assert_eq!(c2.obj, line_curve(0));
    // One canonical object, not two: the handles are the same.
    assert_eq!(c1, c2);

    // The local edge forms share those canonical curve handles.
    let local = &result.cycles[0].local.edges;
    assert_eq!(local[0].local.curve.canonical, *c1);
    assert_eq!(local[1].local.curve.canonical, *c1);
}

#[test]
fn distinct_transformed_curves_keep_distinct_handles() {
    let mut shape = Shape::new();
    let e1 = closed_edge_on(&mut shape, line_curve(0));
    let e2 = closed_edge_on(&mut shape, line_curve(1000));
    let cycle = Cycle::new(vec![e1, e2]);
    let hc = shape.merge(cycle).unwrap();
    let cycles = CyclesInFace {
        cycles: vec![LocalForm::new(hc.obj.clone(), hc)],
    };

    // A plain translation keeps the two curves apart.
    let result = transform_cycles(&cycles, &identity_with_translation(point3(0, 0, 1)));
    let out = &result.cycles[0].canonical.obj.edges;
    assert_eq!(out[0].canonical.obj.curve.canonical.obj, line_curve(1));
    assert_eq!(out[1].canonical.obj.curve.canonical.obj, line_curve(1001));
    assert_ne!(
        out[0].canonical.obj.curve.canonical,
        out[1].canonical.obj.curve.canonical
    );
}

#[test]
fn quarter_turn_rotates_exactly() {
    // A quarter turn about the vertical axis: x -> -y, y -> x.
    let quarter = Transform {
        xx: 0,
        xy: -1,
        xz: 0,
        yx: 1,
        yy: 0,
        yz: 0,
        zx: 0,
        zy: 0,
        zz: 1,
        translation: point3(0, 0, 0),
    };
    let line = Line {
        origin: point3(1000, 2000, 3000),
        direction: point3(500, 0, 0),
    };
    let turned = line.transform(&quarter);
    assert_eq!(turned.origin, point3(-2000, 1000, 3000));
    assert_eq!(turned.direction, point3(0, 500, 0));
}
