//! Topological object kinds: vertices, edges, cycles, faces, regions and
//! sketches. Composite kinds reference their constituents through handles,
//! paired with context-local representations where a context has one.

use vstd::prelude::*;

use crate::geometry::{Curve, Surface};
use crate::math::{Color, Point1, Point3, Triangle};
use crate::store::{Handle, LocalForm};

verus! {

/// A vertex: a point of the model, kept as the local point value paired
/// with the handle of the canonical point.
#[derive(Clone, Copy, PartialEq, Eq, Structural, Debug)]
pub struct Vertex {
    /// The vertex's point, as local value and canonical handle.
    pub point: LocalForm<Point3, Point3>,
}

impl Vertex {
    /// A vertex over a canonical point.
    pub fn new(point: Handle<Point3>) -> (r: Self)
        ensures
            r.point.local == point.obj,
            r.point.canonical == point,
    {
        Vertex { point: LocalForm::canonical_only(point) }
    }

    /// The canonical point value the vertex sits on.
    pub fn point(&self) -> (r: Point3)
        ensures
            r == self.point.canonical.obj,
    {
        self.point.canonical.obj
    }
}

impl View for Vertex {
    type V = Vertex;

    open spec fn view(&self) -> Vertex {
        *self
    }
}

/// The two bounding vertices of an edge, each with the curve parameter at
/// which it sits on the edge's curve.
#[derive(Clone, Copy, PartialEq, Eq, Structural, Debug)]
pub struct EdgeVertices {
    pub a: LocalForm<Point1, Vertex>,
    pub b: LocalForm<Point1, Vertex>,
}

/// How an edge is bounded: a closed curve has no bounding vertices, any
/// other edge has two.
#[derive(Clone, Copy, PartialEq, Eq, Structural, Debug)]
pub enum EdgeEnds {
    /// The edge runs along a closed curve and has no bounding vertices.
    Closed,
    /// The edge is bounded by two vertices.
    Ends(EdgeVertices),
}

/// An edge: a curve with up to two bounding vertices.
#[derive(Clone, Copy, PartialEq, Eq, Structural, Debug)]
pub struct Edge {
    /// The curve the edge runs along, as local form and canonical handle.
    pub curve: LocalForm<Curve, Curve>,
    /// The edge's bounding vertices, if it has any.
    pub vertices: EdgeEnds,
}

impl Edge {
    /// An edge over a canonical curve and canonical bounding vertices.
    pub fn new(curve: Handle<Curve>, vertices: EdgeEnds) -> (r: Self)
        ensures
            r.curve.local == curve.obj,
            r.curve.canonical == curve,
            r.vertices == vertices,
    {
        Edge { curve: LocalForm::canonical_only(curve), vertices }
    }

    /// The canonical curve value the edge runs along.
    pub fn curve(&self) -> (r: Curve)
        ensures
            r == self.curve.canonical.obj,
    {
        self.curve.canonical.obj
    }
}

impl View for Edge {
    type V = Edge;

    open spec fn view(&self) -> Edge {
        *self
    }
}

/// Whether the edge's bounding vertices, if any, sit on distinct points.
/// An edge bounded twice by one point would be degenerate.
pub open spec fn edge_ends_distinct(e: Edge) -> bool {
    match e.vertices {
        EdgeEnds::Closed => true,
        EdgeEnds::Ends(vv) => vv.a.canonical.obj.point.canonical.obj
            != vv.b.canonical.obj.point.canonical.obj,
    }
}

/// A cycle: a closed loop of edges.
#[derive(Clone, Debug, PartialEq)]
pub struct Cycle {
    /// The edges of the loop, each as local form and canonical handle.
    pub edges: Vec<LocalForm<Edge, Edge>>,
}

impl View for Cycle {
    type V = Seq<LocalForm<Edge, Edge>>;

    open spec fn view(&self) -> Seq<LocalForm<Edge, Edge>> {
        self.edges@
    }
}

impl Cycle {
    /// A cycle over canonical edges.
    pub fn new(edges: Vec<Handle<Edge>>) -> (r: Self)
        ensures
            r@.len() == edges@.len(),
            forall|i: int|
                0 <= i < edges@.len() ==> (#[trigger] r@[i]).local == edges@[i].obj && r@[i].canonical
                    == edges@[i],
    {
        let mut lf: Vec<LocalForm<Edge, Edge>> = Vec::new();
        let mut i: usize = 0;
        let n = edges.len();
        while i < n
            invariant
                i <= n,
                n == edges@.len(),
                lf@.len() == i as int,
                forall|j: int|
                    0 <= j < i as int ==> (#[trigger] lf@[j]).local == edges@[j].obj
                        && lf@[j].canonical == edges@[j],
            decreases n - i,
        {
            lf.push(LocalForm::canonical_only(edges[i]));
            i += 1;
        }
        Cycle { edges: lf }
    }
}

/// An exact copy of a cycle.
pub fn clone_cycle(c: &Cycle) -> (r: Cycle)
    ensures
        r@ == c@,
{
    let mut edges: Vec<LocalForm<Edge, Edge>> = Vec::new();
    let mut i: usize = 0;
    let n = c.edges.len();
    while i < n
        invariant
            i <= n,
            n == c.edges@.len(),
            edges@.len() == i as int,
            forall|j: int| 0 <= j < i as int ==> edges@[j] == c.edges@[j],
        decreases n - i,
    {
        edges.push(c.edges[i]);
        i += 1;
    }
    proof {
        assert(edges@ =~= c.edges@);
    }
    Cycle { edges }
}

/// Whether two cycles hold the same edges in the same order.
pub fn cycle_eq(a: &Cycle, b: &Cycle) -> (r: bool)
    ensures
        r == (a@ == b@),
{
    if a.edges.len() != b.edges.len() {
        return false;
    }
    let mut i: usize = 0;
    let n = a.edges.len();
    while i < n
        invariant
            i <= n,
            n == a.edges@.len(),
            b.edges@.len() == n,
            forall|j: int| 0 <= j < i as int ==> a.edges@[j] == b.edges@[j],
        decreases n - i,
    {
        if !(a.edges[i] == b.edges[i]) {
            return false;
        }
        i += 1;
    }
    proof {
        assert(a@ =~= b@);
    }
    true
}

/// A handle of a cycle, seen as its mathematical content.
pub struct HandleCycleV {
    pub id: u64,
    pub edges: Seq<LocalForm<Edge, Edge>>,
}

/// The content of a cycle handle: its slot and the canonical cycle's edges.
pub open spec fn handle_cycle_v(h: Handle<Cycle>) -> HandleCycleV {
    HandleCycleV { id: h.id, edges: h.obj@ }
}

/// A local form of a cycle, seen as its mathematical content.
pub struct LfCycleV {
    pub local: Seq<LocalForm<Edge, Edge>>,
    pub canonical: HandleCycleV,
}

/// The content of a cycle local form.
pub open spec fn lf_cycle_v(l: LocalForm<Cycle, Cycle>) -> LfCycleV {
    LfCycleV { local: l.local@, canonical: handle_cycle_v(l.canonical) }
}

/// Whether two cycle local forms hold the same content.
pub fn lf_cycle_eq(a: &LocalForm<Cycle, Cycle>, b: &LocalForm<Cycle, Cycle>) -> (r: bool)
    ensures
        r == (lf_cycle_v(*a) == lf_cycle_v(*b)),
{
    cycle_eq(&a.local, &b.local) && a.canonical.id == b.canonical.id && cycle_eq(
        &a.canonical.obj,
        &b.canonical.obj,
    )
}

/// The cycles bounding one face: one exterior or several interiors.
#[derive(Clone, Debug, PartialEq)]
pub struct CyclesInFace {
    /// The cycles, each as local form and canonical handle.
    pub cycles: Vec<LocalForm<Cycle, Cycle>>,
}

impl View for CyclesInFace {
    type V = Seq<LfCycleV>;

    open spec fn view(&self) -> Seq<LfCycleV> {
        Seq::new(self.cycles@.len(), |i: int| lf_cycle_v(self.cycles@[i]))
    }
}

impl CyclesInFace {
    /// A face boundary made of the given cycles.
    pub fn new(cycles: Vec<LocalForm<Cycle, Cycle>>) -> (r: Self)
        ensures
            r.cycles@ == cycles@,
    {
        CyclesInFace { cycles }
    }

    /// The cycles as local forms.
    pub fn as_local_form(&self) -> (r: &Vec<LocalForm<Cycle, Cycle>>)
        ensures
            *r == self.cycles,
    {
        &self.cycles
    }
}

/// An exact copy of a face boundary.
pub fn clone_cycles_in_face(c: &CyclesInFace) -> (r: CyclesInFace)
    ensures
        r@ == c@,
{
    let mut cycles: Vec<LocalForm<Cycle, Cycle>> = Vec::new();
    let mut i: usize = 0;
    let n = c.cycles.len();
    while i < n
        invariant
            i <= n,
            n == c.cycles@.len(),
            cycles@.len() == i as int,
            forall|j: int|
                0 <= j < i as int ==> lf_cycle_v(#[trigger] cycles@[j]) == lf_cycle_v(c.cycles@[j]),
        decreases n - i,
    {
        let lf = LocalForm {
            local: clone_cycle(&c.cycles[i].local),
            canonical: Handle {
                id: c.cycles[i].canonical.id,
                obj: clone_cycle(&c.cycles[i].canonical.obj),
            },
        };
        cycles.push(lf);
        i += 1;
    }
    let r = CyclesInFace { cycles };
    proof {
        assert(r@ =~= c@);
    }
    r
}

/// Whether two face boundaries hold the same cycles.
pub fn cycles_in_face_eq(a: &CyclesInFace, b: &CyclesInFace) -> (r: bool)
    ensures
        r == (a@ == b@),
{
    if a.cycles.len() != b.cycles.len() {
        proof {
            assert(a@.len() != b@.len());
        }
        return false;
    }
    let mut i: usize = 0;
    let n = a.cycles.len();
    while i < n
        invariant
            i <= n,
            n == a.cycles@.len(),
            b.cycles@.len() == n,
            forall|j: int| 0 <= j < i as int ==> a@[j] == b@[j],
        decreases n - i,
    {
        if !lf_cycle_eq(&a.cycles[i], &b.cycles[i]) {
            proof {
                assert(a@[i as int] != b@[i as int]);
            }
            return false;
        }
        i += 1;
    }
    proof {
        assert(a@ =~= b@);
    }
    true
}

/// The boundary representation of a face: a surface bounded by one set of
/// exterior cycles and one of interior cycles, with a color.
#[derive(Clone, Debug, PartialEq)]
pub struct FaceBRep {
    /// The surface the face lies on.
    pub surface: Handle<Surface>,
    /// The cycles bounding the face on the outside.
    pub exteriors: CyclesInFace,
    /// The cycles bounding holes inside the face.
    pub interiors: CyclesInFace,
    /// The face's color.
    pub color: Color,
}

/// A face: either a full boundary representation, or a bare triangle mesh
/// that carries no shareable structure.
#[derive(Clone, Debug, PartialEq)]
pub enum Face {
    /// A face with full boundary representation.
    Face(FaceBRep),
    /// A face given directly as colored triangles.
    Triangles(Vec<(Triangle, Color)>),
}

/// A face, seen as its mathematical content.
pub enum FaceV {
    BRep { surface: Handle<Surface>, exteriors: Seq<LfCycleV>, interiors: Seq<LfCycleV>, color: Color },
    Triangles { triangles: Seq<(Triangle, Color)> },
}

impl View for Face {
    type V = FaceV;

    open spec fn view(&self) -> FaceV {
        match self {
            Face::Face(brep) => FaceV::BRep {
                surface: brep.surface,
                exteriors: brep.exteriors@,
                interiors: brep.interiors@,
                color: brep.color,
            },
            Face::Triangles(triangles) => FaceV::Triangles { triangles: triangles@ },
        }
    }
}

/// An exact copy of a face.
pub fn clone_face(f: &Face) -> (r: Face)
    ensures
        r@ == f@,
{
    match f {
        Face::Face(brep) => Face::Face(
            FaceBRep {
                surface: brep.surface,
                exteriors: clone_cycles_in_face(&brep.exteriors),
                interiors: clone_cycles_in_face(&brep.interiors),
                color: brep.color,
            },
        ),
        Face::Triangles(triangles) => {
            let mut out: Vec<(Triangle, Color)> = Vec::new();
            let mut i: usize = 0;
            let n = triangles.len();
            while i < n
                invariant
                    i <= n,
                    n == triangles@.len(),
                    out@.len() == i as int,
                    forall|j: int| 0 <= j < i as int ==> out@[j] == triangles@[j],
                decreases n - i,
            {
                out.push(triangles[i]);
                i += 1;
            }
            proof {
                assert(out@ =~= triangles@);
            }
            Face::Triangles(out)
        },
    }
}

/// Whether two faces hold the same content.
pub fn face_eq(a: &Face, b: &Face) -> (r: bool)
    ensures
        r == (a@ == b@),
{
    match (a, b) {
        (Face::Face(ab), Face::Face(bb)) => {
            ab.surface.id == bb.surface.id && ab.surface.obj == bb.surface.obj && ab.color
                == bb.color && cycles_in_face_eq(&ab.exteriors, &bb.exteriors)
                && cycles_in_face_eq(&ab.interiors, &bb.interiors)
        },
        (Face::Triangles(at), Face::Triangles(bt)) => {
            if at.len() != bt.len() {
                proof {
                    assert(at@.len() != bt@.len());
                    assert(a@ != b@);
                }
                return false;
            }
            let mut i: usize = 0;
            let n = at.len();
            while i < n
                invariant
                    i <= n,
                    n == at@.len(),
                    bt@.len() == n,
                    a@ == (FaceV::Triangles { triangles: at@ }),
                    b@ == (FaceV::Triangles { triangles: bt@ }),
                    forall|j: int| 0 <= j < i as int ==> at@[j] == bt@[j],
                decreases n - i,
            {
                if !(at[i].0 == bt[i].0 && at[i].1 == bt[i].1) {
                    proof {
                        assert(at@[i as int] != bt@[i as int]);
                        assert(a@ != b@);
                    }
                    return false;
                }
                i += 1;
            }
            proof {
                assert(at@ =~= bt@);
            }
            true
        },
        _ => false,
    }
}


/// The content of a face boundary built from canonical cycle handles: each
/// local form is the canonical cycle itself.
pub open spec fn cif_of_handles(hs: Seq<Handle<Cycle>>) -> Seq<LfCycleV> {
    Seq::new(
        hs.len(),
        |i: int| LfCycleV { local: hs[i].obj@, canonical: handle_cycle_v(hs[i]) },
    )
}

impl Face {
    /// A face over a canonical surface and canonical bounding cycles.
    pub fn new(
        surface: Handle<Surface>,
        exteriors: Vec<Handle<Cycle>>,
        interiors: Vec<Handle<Cycle>>,
        color: Color,
    ) -> (r: Face)
        ensures
            (r@ == FaceV::BRep {
                surface,
                exteriors: cif_of_handles(exteriors@),
                interiors: cif_of_handles(interiors@),
                color,
            }),
    {
        let exteriors = cycles_in_face_of_handles(exteriors);
        let interiors = cycles_in_face_of_handles(interiors);
        Face::Face(FaceBRep { surface, exteriors, interiors, color })
    }
}

/// A face boundary whose local forms are the canonical cycles themselves.
fn cycles_in_face_of_handles(hs: Vec<Handle<Cycle>>) -> (r: CyclesInFace)
    ensures
        r@ == cif_of_handles(hs@),
{
    let mut cycles: Vec<LocalForm<Cycle, Cycle>> = Vec::new();
    let mut i: usize = 0;
    let n = hs.len();
    while i < n
        invariant
            i <= n,
            n == hs@.len(),
            cycles@.len() == i as int,
            forall|j: int|
                0 <= j < i as int ==> lf_cycle_v(#[trigger] cycles@[j]) == (LfCycleV {
                    local: hs@[j].obj@,
                    canonical: handle_cycle_v(hs@[j]),
                }),
        decreases n - i,
    {
        let lf = LocalForm {
            local: clone_cycle(&hs[i].obj),
            canonical: clone_cycle_handle(&hs[i]),
        };
        cycles.push(lf);
        i += 1;
    }
    let r = CyclesInFace { cycles };
    proof {
        assert(r@ =~= cif_of_handles(hs@));
    }
    r
}

/// A region of a sketch: an exterior cycle, any number of interior cycles,
/// and an optional color.
#[derive(Clone, Debug, PartialEq)]
pub struct Region {
    /// The cycle bounding the region on the outside.
    pub exterior: Handle<Cycle>,
    /// The cycles bounding holes inside the region.
    pub interiors: Vec<Handle<Cycle>>,
    /// The region's color, if one was set.
    pub color: Option<Color>,
}

/// A region, seen as its mathematical content.
pub struct RegionV {
    pub exterior: HandleCycleV,
    pub interiors: Seq<HandleCycleV>,
    pub color: Option<Color>,
}

impl View for Region {
    type V = RegionV;

    open spec fn view(&self) -> RegionV {
        RegionV {
            exterior: handle_cycle_v(self.exterior),
            interiors: Seq::new(self.interiors@.len(), |i: int| handle_cycle_v(self.interiors@[i])),
            color: self.color,
        }
    }
}

impl Region {
    /// A region bounded by the given cycles, with the given color.
    pub fn new(exterior: Handle<Cycle>, interiors: Vec<Handle<Cycle>>, color: Option<Color>) -> (r:
        Self)
        ensures
            r.exterior == exterior,
            r.interiors@ == interiors@,
            r.color == color,
    {
        Region { exterior, interiors, color }
    }

    /// The region's exterior cycle.
    pub fn exterior(&self) -> (r: &Handle<Cycle>)
        ensures
            *r == self.exterior,
    {
        &self.exterior
    }

    /// The region's interior cycles.
    pub fn interiors(&self) -> (r: &Vec<Handle<Cycle>>)
        ensures
            *r == self.interiors,
    {
        &self.interiors
    }
}

/// An exact copy of a cycle handle.
pub fn clone_cycle_handle(h: &Handle<Cycle>) -> (r: Handle<Cycle>)
    ensures
        handle_cycle_v(r) == handle_cycle_v(*h),
{
    Handle { id: h.id, obj: clone_cycle(&h.obj) }
}

/// An exact copy of a region.
pub fn clone_region(region: &Region) -> (r: Region)
    ensures
        r@ == region@,
{
    let mut interiors: Vec<Handle<Cycle>> = Vec::new();
    let mut i: usize = 0;
    let n = region.interiors.len();
    while i < n
        invariant
            i <= n,
            n == region.interiors@.len(),
            interiors@.len() == i as int,
            forall|j: int|
                0 <= j < i as int ==> handle_cycle_v(#[trigger] interiors@[j]) == handle_cycle_v(
                    region.interiors@[j],
                ),
        decreases n - i,
    {
        interiors.push(clone_cycle_handle(&region.interiors[i]));
        i += 1;
    }
    let r = Region {
        exterior: clone_cycle_handle(&region.exterior),
        interiors,
        color: region.color,
    };
    proof {
        assert(r@.interiors =~= region@.interiors);
    }
    r
}

/// Whether two regions hold the same content.
pub fn region_eq(a: &Region, b: &Region) -> (r: bool)
    ensures
        r == (a@ == b@),
{
    if !(a.exterior.id == b.exterior.id && cycle_eq(&a.exterior.obj, &b.exterior.obj)) {
        return false;
    }
    let color_same = match (a.color, b.color) {
        (Option::Some(ca), Option::Some(cb)) => ca == cb,
        (Option::None, Option::None) => true,
        _ => false,
    };
    if !color_same {
        return false;
    }
    if a.interiors.len() != b.interiors.len() {
        proof {
            assert(a@.interiors.len() != b@.interiors.len());
        }
        return false;
    }
    let mut i: usize = 0;
    let n = a.interiors.len();
    while i < n
        invariant
            i <= n,
            n == a.interiors@.len(),
            b.interiors@.len() == n,
            forall|j: int| 0 <= j < i as int ==> a@.interiors[j] == b@.interiors[j],
        decreases n - i,
    {
        if !(a.interiors[i].id == b.interiors[i].id && cycle_eq(
            &a.interiors[i].obj,
            &b.interiors[i].obj,
        )) {
            proof {
                assert(a@.interiors[i as int] != b@.interiors[i as int]);
            }
            return false;
        }
        i += 1;
    }
    proof {
        assert(a@.interiors =~= b@.interiors);
    }
    true
}

/// A sketch: a flat shape made of regions.
#[derive(Clone, Debug, PartialEq)]
pub struct Sketch {
    /// The regions the sketch is made of.
    pub regions: Vec<Handle<Region>>,
}

/// The content of a region handle: its slot and the canonical region.
pub open spec fn handle_region_v(h: Handle<Region>) -> (u64, RegionV) {
    (h.id, h.obj@)
}

impl View for Sketch {
    type V = Seq<(u64, RegionV)>;

    open spec fn view(&self) -> Seq<(u64, RegionV)> {
        Seq::new(self.regions@.len(), |i: int| handle_region_v(self.regions@[i]))
    }
}

impl Sketch {
    /// A sketch made of the given regions.
    pub fn new(regions: Vec<Handle<Region>>) -> (r: Self)
        ensures
            r.regions@ == regions@,
    {
        Sketch { regions }
    }

    /// The sketch's regions.
    pub fn regions(&self) -> (r: &Vec<Handle<Region>>)
        ensures
            *r == self.regions,
    {
        &self.regions
    }
}

/// An exact copy of a region handle.
pub fn clone_region_handle(h: &Handle<Region>) -> (r: Handle<Region>)
    ensures
        handle_region_v(r) == handle_region_v(*h),
{
    Handle { id: h.id, obj: clone_region(&h.obj) }
}

} // verus!
