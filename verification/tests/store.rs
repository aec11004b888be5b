//! The object store: insert-or-reuse, idempotent merging, deduplication,
//! and validation.

use brep_core::geometry::{Curve, GlobalPath, Line, Surface};
use brep_core::math::{Color, Point1, Point3};
use brep_core::object::Object;
use brep_core::shape::{Shape, ValidationError};
use brep_core::store::{Handle, LocalForm};
use brep_core::topology::{Cycle, Edge, EdgeEnds, EdgeVertices, Face, Vertex};

fn point3(x: i64, y: i64, z: i64) -> Point3 {
    Point3 { x, y, z }
}

fn line_curve(z: i64) -> Curve {
    Curve {
        path: GlobalPath::Line(Line {
            origin: point3(0, 0, z),
            direction: point3(1000, 0, 0),
        }),
    }
}

fn edge_between(shape: &mut Shape, a: Point3, b: Point3, curve: Curve) -> Edge {
    let ch = shape.merge(curve).unwrap();
    let pa = shape.merge(a).unwrap();
    let va = shape.merge(Vertex::new(pa)).unwrap();
    let pb = shape.merge(b).unwrap();
    let vb = shape.merge(Vertex::new(pb)).unwrap();
    Edge::new(
        ch,
        EdgeEnds::Ends(EdgeVertices {
            a: LocalForm::new(Point1 { t: 0 }, va),
            b: LocalForm::new(Point1 { t: 1000 }, vb),
        }),
    )
}

#[test]
fn merging_a_point_twice_reuses_the_slot() {
    let mut shape = Shape::new();
    let h1 = shape.merge(point3(1, 2, 3)).unwrap();
    let h2 = shape.merge(point3(4, 5, 6)).unwrap();
    let h3 = shape.merge(point3(1, 2, 3)).unwrap();
    assert_eq!(h1, h3);
    assert_ne!(h1, h2);
    assert_eq!(shape.point_count(), 2);
}

#[test]
fn merge_is_idempotent_for_composites() {
    let mut shape = Shape::new();
    let edge = edge_between(
        &mut shape,
        point3(0, 0, 0),
        point3(1000, 0, 0),
        line_curve(0),
    );
    let h = shape.merge(edge).unwrap();
    let points = shape.point_count();
    let vertices = shape.vertex_count();
    let edges = shape.edge_count();

    // Merging the already-canonical object returns its own handle and the
    // store has not grown.
    let h2 = shape.merge(h.obj.clone()).unwrap();
    assert_eq!(h.id, h2.id);
    assert_eq!(shape.point_count(), points);
    assert_eq!(shape.vertex_count(), vertices);
    assert_eq!(shape.edge_count(), edges);
}

#[test]
fn structurally_equal_composites_share_one_handle() {
    let mut shape = Shape::new();
    let e1 = edge_between(
        &mut shape,
        point3(0, 0, 0),
        point3(1000, 0, 0),
        line_curve(0),
    );
    let h1 = shape.merge(e1).unwrap();
    let edges_after_one = shape.edge_count();

    // A second, separately built but structurally equal edge.
    let e2 = edge_between(
        &mut shape,
        point3(0, 0, 0),
        point3(1000, 0, 0),
        line_curve(0),
    );
    let h2 = shape.merge(e2).unwrap();
    assert_eq!(h1.id, h2.id);
    assert_eq!(shape.edge_count(), edges_after_one);
}

#[test]
fn cycle_merge_canonicalizes_bottom_up() {
    let mut shape = Shape::new();
    let e1 = edge_between(
        &mut shape,
        point3(0, 0, 0),
        point3(1000, 0, 0),
        line_curve(0),
    );
    let h1 = shape.merge(e1).unwrap();
    let e2 = edge_between(
        &mut shape,
        point3(1000, 0, 0),
        point3(0, 0, 0),
        line_curve(1000),
    );
    let h2 = shape.merge(e2).unwrap();

    let cycle = Cycle::new(vec![h1.clone(), h2.clone()]);
    let hc = shape.merge(cycle).unwrap();
    assert_eq!(hc.obj.edges.len(), 2);

    // Merging an equal cycle built from the same handles changes nothing.
    let cycles = shape.cycle_count();
    let hc2 = shape.merge(Cycle::new(vec![h1, h2])).unwrap();
    assert_eq!(hc.id, hc2.id);
    assert_eq!(shape.cycle_count(), cycles);
}

#[test]
fn face_merge_reuses_canonical_constituents() {
    let mut shape = Shape::new();
    let e = edge_between(
        &mut shape,
        point3(0, 0, 0),
        point3(1000, 0, 0),
        line_curve(0),
    );
    let he = shape.merge(e).unwrap();
    let hc = shape.merge(Cycle::new(vec![he])).unwrap();
    let hs = shape
        .merge(Surface {
            origin: point3(0, 0, 0),
            u: point3(1000, 0, 0),
            v: point3(0, 1000, 0),
        })
        .unwrap();
    let color = Color {
        r: 10,
        g: 20,
        b: 30,
        a: 255,
    };
    let face = Face::new(hs.clone(), vec![hc.clone()], vec![], color);
    let hf = shape.merge(face).unwrap();

    let faces = shape.face_count();
    let again = Face::new(hs, vec![hc], vec![], color);
    let hf2 = shape.merge(again).unwrap();
    assert_eq!(hf.id, hf2.id);
    assert_eq!(shape.face_count(), faces);
}

#[test]
fn edge_with_identical_vertices_is_refused() {
    let mut shape = Shape::new();
    let edge = edge_between(
        &mut shape,
        point3(0, 0, 0),
        point3(0, 0, 0),
        line_curve(0),
    );
    let r = shape.merge(edge);
    assert_eq!(r, Err(ValidationError::IdenticalVertices));
}

#[test]
fn empty_cycle_is_refused() {
    let mut shape = Shape::new();
    let r = shape.merge(Cycle::new(vec![]));
    assert_eq!(r.err(), Some(ValidationError::EmptyCycle));
}

#[test]
fn handle_get_hands_out_the_canonical_value() {
    let mut shape = Shape::new();
    let h = shape.merge(line_curve(7)).unwrap();
    assert_eq!(*h.get(), line_curve(7));
}

#[test]
fn insert_and_merge_agree() {
    let mut shape = Shape::new();
    let h1 = shape.insert(line_curve(5)).unwrap();
    let h2 = shape.merge(line_curve(5)).unwrap();
    assert_eq!(h1, h2);
    assert_eq!(shape.curve_count(), 1);
}
