//! Sketch updates, presentation, and mesh vertex indexing.

use brep_core::geometry::{Curve, GlobalPath, Line};
use brep_core::math::{Color, Point3};
use brep_core::presentation::SetColor;
use brep_core::shape::Shape;
use brep_core::sketch::UpdateSketch;
use brep_core::store::Handle;
use brep_core::topology::{Cycle, Edge, EdgeEnds, Region, Sketch};
use brep_core::vertices::Vertices;

fn point3(x: i64, y: i64, z: i64) -> Point3 {
    Point3 { x, y, z }
}

fn some_cycle(shape: &mut Shape, z: i64) -> Handle<Cycle> {
    let curve = Curve {
        path: GlobalPath::Line(Line {
            origin: point3(0, 0, z),
            direction: point3(1000, 0, 0),
        }),
    };
    let ch = shape.merge(curve).unwrap();
    let he = shape.merge(Edge::new(ch, EdgeEnds::Closed)).unwrap();
    shape.merge(Cycle::new(vec![he])).unwrap()
}

#[test]
fn add_regions_appends_canonical_handles() {
    let mut shape = Shape::new();
    let exterior = some_cycle(&mut shape, 0);
    let region = Region::new(exterior, vec![], None);

    let sketch = Sketch::new(vec![]);
    let sketch = sketch.add_regions(vec![region], &mut shape);
    assert_eq!(sketch.regions.len(), 1);
    assert_eq!(sketch.regions[0].obj.color, None);
    assert_eq!(shape.region_count(), 1);

    // Adding a structurally equal region reuses the stored one.
    let exterior2 = some_cycle(&mut shape, 0);
    let region2 = Region::new(exterior2, vec![], None);
    let sketch = sketch.add_regions(vec![region2], &mut shape);
    assert_eq!(sketch.regions.len(), 2);
    assert_eq!(sketch.regions[0].id, sketch.regions[1].id);
    assert_eq!(shape.region_count(), 1);
}

#[test]
fn update_region_replaces_in_place() {
    let mut shape = Shape::new();
    let c0 = some_cycle(&mut shape, 0);
    let c1 = some_cycle(&mut shape, 1000);
    let r0 = Region::new(c0, vec![], None);
    let r1 = Region::new(c1, vec![], None);

    let sketch = Sketch::new(vec![]);
    let sketch = sketch.add_regions(vec![r0, r1], &mut shape);
    let target = sketch.regions[0].clone();

    // Replace the first region by a recolored copy of itself.
    let color = Color {
        r: 255,
        g: 0,
        b: 0,
        a: 255,
    };
    let replacement = target.set_color(color);
    let updated = sketch.update_region(&target, vec![replacement], &mut shape);

    assert_eq!(updated.regions.len(), 2);
    assert_eq!(updated.regions[0].obj.color, Some(color));
    // The other region kept its place and its handle.
    assert_eq!(updated.regions[1], sketch.regions[1]);
}

#[test]
fn set_color_keeps_the_boundary() {
    let mut shape = Shape::new();
    let exterior = some_cycle(&mut shape, 0);
    let interior = some_cycle(&mut shape, 1000);
    let region = Region::new(exterior, vec![interior], None);
    let handle = shape.get_handle_or_insert_region(region);

    let color = Color {
        r: 0,
        g: 255,
        b: 0,
        a: 255,
    };
    let colored = handle.set_color(color);
    assert_eq!(colored.color, Some(color));
    assert_eq!(colored.exterior, handle.obj.exterior);
    assert_eq!(colored.interiors.len(), 1);
    assert_eq!(colored.interiors[0], handle.obj.interiors[0]);
}

#[test]
fn index_for_vertex_deduplicates() {
    let mut vertices = Vertices::new();
    let a = point3(0, 0, 0);
    let b = point3(1000, 0, 0);

    assert_eq!(vertices.index_for_vertex(a), 0);
    assert_eq!(vertices.index_for_vertex(b), 1);
    // Asking again for a known vertex returns the index it already has.
    assert_eq!(vertices.index_for_vertex(a), 0);
    assert_eq!(vertices.index_for_vertex(b), 1);

    let listed = vertices.iter();
    assert_eq!(listed, vec![a, b]);
}

#[test]
fn default_vertices_are_empty() {
    let vertices = Vertices::default();
    assert_eq!(vertices.iter(), vec![]);
}
