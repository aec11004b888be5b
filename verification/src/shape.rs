//! The object store: one deduplicated collection per object kind, with
//! insert-or-reuse as the only way in.
//!
//! Inserting a value that the store already holds hands back the existing
//! handle and changes nothing; a fresh value is validated and, if sound,
//! appended to a new slot. Slots are never reused or reordered, so a handle
//! stays valid for the lifetime of its store.

use vstd::prelude::*;

use crate::geometry::{Curve, Surface};
use crate::math::Point3;
use crate::store::{
    first_index_of, grows_seq, lemma_first_index_from_scan, lemma_not_contains_from_scan,
    lemma_store_insert_uniq, store_insert, store_insert_id, uniq, Handle,
};
use crate::topology::{
    clone_cycle, clone_face, clone_region, cycle_eq, edge_ends_distinct, face_eq, region_eq,
    Cycle, Edge, Face, FaceV, Region, RegionV, Vertex,
};

verus! {

/// One store extends another: every kind keeps its slots and their
/// contents; new slots may follow.
pub open spec fn shape_grows(a: Shape, b: Shape) -> bool {
    &&& grows_seq(a.points_view(), b.points_view())
    &&& grows_seq(a.curves_view(), b.curves_view())
    &&& grows_seq(a.surfaces_view(), b.surfaces_view())
    &&& grows_seq(a.vertices_view(), b.vertices_view())
    &&& grows_seq(a.edges_view(), b.edges_view())
    &&& grows_seq(a.cycles_view(), b.cycles_view())
    &&& grows_seq(a.faces_view(), b.faces_view())
    &&& grows_seq(a.regions_view(), b.regions_view())
}

/// Why the store refused to take an object in.
#[derive(Clone, Copy, PartialEq, Eq, Structural, Debug)]
pub enum ValidationError {
    /// An edge's two bounding vertices sit on the same point.
    IdenticalVertices,
    /// A cycle holds no edges, so it cannot bound anything.
    EmptyCycle,
}

/// What a merge or insert-or-reuse hands back: the canonical handle, or the
/// validation error that kept the object out of the store.
pub type ValidationResult<T> = Result<Handle<T>, ValidationError>;

/// The object store: one collection per object kind.
pub struct Shape {
    points: Vec<Point3>,
    curves: Vec<Curve>,
    surfaces: Vec<Surface>,
    vertices: Vec<Vertex>,
    edges: Vec<Edge>,
    cycles: Vec<Cycle>,
    faces: Vec<Face>,
    regions: Vec<Region>,
}

impl Shape {
    /// The stored points.
    pub closed spec fn points_view(self) -> Seq<Point3> {
        self.points@
    }

    /// The stored curves.
    pub closed spec fn curves_view(self) -> Seq<Curve> {
        self.curves@
    }

    /// The stored surfaces.
    pub closed spec fn surfaces_view(self) -> Seq<Surface> {
        self.surfaces@
    }

    /// The stored vertices.
    pub closed spec fn vertices_view(self) -> Seq<Vertex> {
        self.vertices@
    }

    /// The stored edges.
    pub closed spec fn edges_view(self) -> Seq<Edge> {
        self.edges@
    }

    /// The stored cycles, by content.
    pub closed spec fn cycles_view(self) -> Seq<Seq<crate::store::LocalForm<Edge, Edge>>> {
        Seq::new(self.cycles@.len(), |i: int| self.cycles@[i]@)
    }

    /// The stored faces, by content.
    pub closed spec fn faces_view(self) -> Seq<FaceV> {
        Seq::new(self.faces@.len(), |i: int| self.faces@[i]@)
    }

    /// The stored regions, by content.
    pub closed spec fn regions_view(self) -> Seq<RegionV> {
        Seq::new(self.regions@.len(), |i: int| self.regions@[i]@)
    }

    /// The store's invariant: every kind's collection is duplicate-free,
    /// and every stored object passed its validation.
    pub open spec fn wf(self) -> bool {
        &&& uniq(self.points_view())
        &&& uniq(self.curves_view())
        &&& uniq(self.surfaces_view())
        &&& uniq(self.vertices_view())
        &&& uniq(self.edges_view())
        &&& uniq(self.cycles_view())
        &&& uniq(self.faces_view())
        &&& uniq(self.regions_view())
        &&& forall|i: int|
            0 <= i < self.edges_view().len() ==> edge_ends_distinct(
                #[trigger] self.edges_view()[i],
            )
        &&& forall|i: int|
            0 <= i < self.cycles_view().len() ==> (#[trigger] self.cycles_view()[i]).len() > 0
    }

    /// A fresh, empty store.
    pub fn new() -> (r: Self)
        ensures
            r.wf(),
            r.points_view() == Seq::<Point3>::empty(),
            r.curves_view() == Seq::<Curve>::empty(),
            r.surfaces_view() == Seq::<Surface>::empty(),
            r.vertices_view() == Seq::<Vertex>::empty(),
            r.edges_view() == Seq::<Edge>::empty(),
            r.cycles_view() == Seq::<Seq<crate::store::LocalForm<Edge, Edge>>>::empty(),
            r.faces_view() == Seq::<FaceV>::empty(),
            r.regions_view() == Seq::<RegionV>::empty(),
    {
        let r = Shape {
            points: Vec::new(),
            curves: Vec::new(),
            surfaces: Vec::new(),
            vertices: Vec::new(),
            edges: Vec::new(),
            cycles: Vec::new(),
            faces: Vec::new(),
            regions: Vec::new(),
        };
        proof {
            assert(r.cycles_view() =~= Seq::<Seq<crate::store::LocalForm<Edge, Edge>>>::empty());
            assert(r.faces_view() =~= Seq::<FaceV>::empty());
            assert(r.regions_view() =~= Seq::<RegionV>::empty());
        }
        r
    }

    /// Inserts or reuses a point: a point equal to a stored one gets the
    /// stored slot's handle; a fresh one gets a new slot.
    pub fn get_handle_or_insert_point(&mut self, v: Point3) -> (r: Handle<Point3>)
        requires
            old(self).wf(),
        ensures
            final(self).wf(),
            final(self).points_view() == store_insert(old(self).points_view(), v),
            final(self).curves_view() == old(self).curves_view(),
            final(self).surfaces_view() == old(self).surfaces_view(),
            final(self).vertices_view() == old(self).vertices_view(),
            final(self).edges_view() == old(self).edges_view(),
            final(self).cycles_view() == old(self).cycles_view(),
            final(self).faces_view() == old(self).faces_view(),
            final(self).regions_view() == old(self).regions_view(),
            r.obj == v,
            r.id as int == store_insert_id(old(self).points_view(), v),
            old(self).points_view().contains(v) ==> *final(self) == *old(self),
    {
        let n = self.points.len();
        let mut i: usize = 0;
        while i < n
            invariant
                i <= n,
                n == self.points@.len(),
                *self == *old(self),
                old(self).wf(),
                forall|j: int| 0 <= j < i as int ==> self.points@[j] != v,
            decreases n - i,
        {
            if self.points[i] == v {
                proof {
                    lemma_first_index_from_scan(self.points@, v, i as int);
                }
                return Handle { id: i as u64, obj: v };
            }
            i += 1;
        }
        proof {
            lemma_not_contains_from_scan(self.points@, v);
            lemma_store_insert_uniq(self.points@, v);
        }
        let id = self.points.len() as u64;
        self.points.push(v);
        Handle { id, obj: v }
    }

    /// Inserts or reuses a curve.
    pub fn get_handle_or_insert_curve(&mut self, v: Curve) -> (r: Handle<Curve>)
        requires
            old(self).wf(),
        ensures
            final(self).wf(),
            final(self).curves_view() == store_insert(old(self).curves_view(), v),
            final(self).points_view() == old(self).points_view(),
            final(self).surfaces_view() == old(self).surfaces_view(),
            final(self).vertices_view() == old(self).vertices_view(),
            final(self).edges_view() == old(self).edges_view(),
            final(self).cycles_view() == old(self).cycles_view(),
            final(self).faces_view() == old(self).faces_view(),
            final(self).regions_view() == old(self).regions_view(),
            r.obj == v,
            r.id as int == store_insert_id(old(self).curves_view(), v),
            old(self).curves_view().contains(v) ==> *final(self) == *old(self),
    {
        let n = self.curves.len();
        let mut i: usize = 0;
        while i < n
            invariant
                i <= n,
                n == self.curves@.len(),
                *self == *old(self),
                old(self).wf(),
                forall|j: int| 0 <= j < i as int ==> self.curves@[j] != v,
            decreases n - i,
        {
            if self.curves[i] == v {
                proof {
                    lemma_first_index_from_scan(self.curves@, v, i as int);
                }
                return Handle { id: i as u64, obj: v };
            }
            i += 1;
        }
        proof {
            lemma_not_contains_from_scan(self.curves@, v);
            lemma_store_insert_uniq(self.curves@, v);
        }
        let id = self.curves.len() as u64;
        self.curves.push(v);
        Handle { id, obj: v }
    }

    /// Inserts or reuses a surface.
    pub fn get_handle_or_insert_surface(&mut self, v: Surface) -> (r: Handle<Surface>)
        requires
            old(self).wf(),
        ensures
            final(self).wf(),
            final(self).surfaces_view() == store_insert(old(self).surfaces_view(), v),
            final(self).points_view() == old(self).points_view(),
            final(self).curves_view() == old(self).curves_view(),
            final(self).vertices_view() == old(self).vertices_view(),
            final(self).edges_view() == old(self).edges_view(),
            final(self).cycles_view() == old(self).cycles_view(),
            final(self).faces_view() == old(self).faces_view(),
            final(self).regions_view() == old(self).regions_view(),
            r.obj == v,
            r.id as int == store_insert_id(old(self).surfaces_view(), v),
            old(self).surfaces_view().contains(v) ==> *final(self) == *old(self),
    {
        let n = self.surfaces.len();
        let mut i: usize = 0;
        while i < n
            invariant
                i <= n,
                n == self.surfaces@.len(),
                *self == *old(self),
                old(self).wf(),
                forall|j: int| 0 <= j < i as int ==> self.surfaces@[j] != v,
            decreases n - i,
        {
            if self.surfaces[i] == v {
                proof {
                    lemma_first_index_from_scan(self.surfaces@, v, i as int);
                }
                return Handle { id: i as u64, obj: v };
            }
            i += 1;
        }
        proof {
            lemma_not_contains_from_scan(self.surfaces@, v);
            lemma_store_insert_uniq(self.surfaces@, v);
        }
        let id = self.surfaces.len() as u64;
        self.surfaces.push(v);
        Handle { id, obj: v }
    }

    /// Inserts or reuses a vertex.
    pub fn get_handle_or_insert_vertex(&mut self, v: Vertex) -> (r: Handle<Vertex>)
        requires
            old(self).wf(),
        ensures
            final(self).wf(),
            final(self).vertices_view() == store_insert(old(self).vertices_view(), v),
            final(self).points_view() == old(self).points_view(),
            final(self).curves_view() == old(self).curves_view(),
            final(self).surfaces_view() == old(self).surfaces_view(),
            final(self).edges_view() == old(self).edges_view(),
            final(self).cycles_view() == old(self).cycles_view(),
            final(self).faces_view() == old(self).faces_view(),
            final(self).regions_view() == old(self).regions_view(),
            r.obj == v,
            r.id as int == store_insert_id(old(self).vertices_view(), v),
            old(self).vertices_view().contains(v) ==> *final(self) == *old(self),
    {
        let n = self.vertices.len();
        let mut i: usize = 0;
        while i < n
            invariant
                i <= n,
                n == self.vertices@.len(),
                *self == *old(self),
                old(self).wf(),
                forall|j: int| 0 <= j < i as int ==> self.vertices@[j] != v,
            decreases n - i,
        {
            if self.vertices[i] == v {
                proof {
                    lemma_first_index_from_scan(self.vertices@, v, i as int);
                }
                return Handle { id: i as u64, obj: v };
            }
            i += 1;
        }
        proof {
            lemma_not_contains_from_scan(self.vertices@, v);
            lemma_store_insert_uniq(self.vertices@, v);
        }
        let id = self.vertices.len() as u64;
        self.vertices.push(v);
        Handle { id, obj: v }
    }

    /// Inserts or reuses an edge; an edge whose two bounding vertices sit
    /// on the same point is refused.
    pub fn get_handle_or_insert_edge(&mut self, v: Edge) -> (r: ValidationResult<Edge>)
        requires
            old(self).wf(),
        ensures
            final(self).wf(),
            final(self).points_view() == old(self).points_view(),
            final(self).curves_view() == old(self).curves_view(),
            final(self).surfaces_view() == old(self).surfaces_view(),
            final(self).vertices_view() == old(self).vertices_view(),
            final(self).cycles_view() == old(self).cycles_view(),
            final(self).faces_view() == old(self).faces_view(),
            final(self).regions_view() == old(self).regions_view(),
            r is Ok <==> edge_ends_distinct(v),
            r matches Ok(h) ==> {
                &&& h.obj == v
                &&& final(self).edges_view() == store_insert(old(self).edges_view(), v)
                &&& h.id as int == store_insert_id(old(self).edges_view(), v)
            },
            r is Err ==> *final(self) == *old(self) && r == Result::<
                Handle<Edge>,
                ValidationError,
            >::Err(ValidationError::IdenticalVertices),
            old(self).edges_view().contains(v) && edge_ends_distinct(v) ==> *final(self) == *old(
                self,
            ),
    {
        let valid = match v.vertices {
            crate::topology::EdgeEnds::Closed => true,
            crate::topology::EdgeEnds::Ends(vv) => !(vv.a.canonical.obj.point.canonical.obj
                == vv.b.canonical.obj.point.canonical.obj),
        };
        if !valid {
            return Result::Err(ValidationError::IdenticalVertices);
        }
        let n = self.edges.len();
        let mut i: usize = 0;
        while i < n
            invariant
                i <= n,
                n == self.edges@.len(),
                *self == *old(self),
                old(self).wf(),
                forall|j: int| 0 <= j < i as int ==> self.edges@[j] != v,
            decreases n - i,
        {
            if self.edges[i] == v {
                proof {
                    lemma_first_index_from_scan(self.edges@, v, i as int);
                }
                return Result::Ok(Handle { id: i as u64, obj: v });
            }
            i += 1;
        }
        proof {
            lemma_not_contains_from_scan(self.edges@, v);
            lemma_store_insert_uniq(self.edges@, v);
        }
        let id = self.edges.len() as u64;
        self.edges.push(v);
        Result::Ok(Handle { id, obj: v })
    }

    /// Inserts or reuses a cycle; a cycle without edges is refused.
    pub fn get_handle_or_insert_cycle(&mut self, v: Cycle) -> (r: ValidationResult<Cycle>)
        requires
            old(self).wf(),
        ensures
            final(self).wf(),
            final(self).points_view() == old(self).points_view(),
            final(self).curves_view() == old(self).curves_view(),
            final(self).surfaces_view() == old(self).surfaces_view(),
            final(self).vertices_view() == old(self).vertices_view(),
            final(self).edges_view() == old(self).edges_view(),
            final(self).faces_view() == old(self).faces_view(),
            final(self).regions_view() == old(self).regions_view(),
            r is Ok <==> v@.len() > 0,
            r matches Ok(h) ==> {
                &&& h.obj@ == v@
                &&& final(self).cycles_view() == store_insert(old(self).cycles_view(), v@)
                &&& h.id as int == store_insert_id(old(self).cycles_view(), v@)
            },
            r is Err ==> *final(self) == *old(self) && r == Result::<
                Handle<Cycle>,
                ValidationError,
            >::Err(ValidationError::EmptyCycle),
            old(self).cycles_view().contains(v@) && v@.len() > 0 ==> *final(self) == *old(self),
    {
        if v.edges.len() == 0 {
            return Result::Err(ValidationError::EmptyCycle);
        }
        let n = self.cycles.len();
        let mut i: usize = 0;
        while i < n
            invariant
                i <= n,
                n == self.cycles@.len(),
                *self == *old(self),
                old(self).wf(),
                forall|j: int| 0 <= j < i as int ==> self.cycles_view()[j] != v@,
            decreases n - i,
        {
            if cycle_eq(&self.cycles[i], &v) {
                let h = Handle { id: i as u64, obj: clone_cycle(&v) };
                proof {
                    lemma_first_index_from_scan(self.cycles_view(), v@, i as int);
                }
                return Result::Ok(h);
            }
            i += 1;
        }
        proof {
            lemma_not_contains_from_scan(self.cycles_view(), v@);
            lemma_store_insert_uniq(self.cycles_view(), v@);
        }
        let id = self.cycles.len() as u64;
        let h = Handle { id, obj: clone_cycle(&v) };
        self.cycles.push(v);
        proof {
            assert(self.cycles_view() =~= old(self).cycles_view().push(h.obj@));
        }
        Result::Ok(h)
    }

    /// Inserts or reuses a face.
    pub fn get_handle_or_insert_face(&mut self, v: Face) -> (r: Handle<Face>)
        requires
            old(self).wf(),
        ensures
            final(self).wf(),
            final(self).points_view() == old(self).points_view(),
            final(self).curves_view() == old(self).curves_view(),
            final(self).surfaces_view() == old(self).surfaces_view(),
            final(self).vertices_view() == old(self).vertices_view(),
            final(self).edges_view() == old(self).edges_view(),
            final(self).cycles_view() == old(self).cycles_view(),
            final(self).regions_view() == old(self).regions_view(),
            r.obj@ == v@,
            final(self).faces_view() == store_insert(old(self).faces_view(), v@),
            r.id as int == store_insert_id(old(self).faces_view(), v@),
            old(self).faces_view().contains(v@) ==> *final(self) == *old(self),
    {
        let n = self.faces.len();
        let mut i: usize = 0;
        while i < n
            invariant
                i <= n,
                n == self.faces@.len(),
                *self == *old(self),
                old(self).wf(),
                forall|j: int| 0 <= j < i as int ==> self.faces_view()[j] != v@,
            decreases n - i,
        {
            if face_eq(&self.faces[i], &v) {
                let h = Handle { id: i as u64, obj: clone_face(&v) };
                proof {
                    lemma_first_index_from_scan(self.faces_view(), v@, i as int);
                }
                return h;
            }
            i += 1;
        }
        proof {
            lemma_not_contains_from_scan(self.faces_view(), v@);
            lemma_store_insert_uniq(self.faces_view(), v@);
        }
        let id = self.faces.len() as u64;
        let h = Handle { id, obj: clone_face(&v) };
        self.faces.push(v);
        proof {
            assert(self.faces_view() =~= old(self).faces_view().push(h.obj@));
        }
        h
    }



    /// How many points the store holds.
    pub fn point_count(&self) -> (r: usize)
        ensures
            r == self.points_view().len(),
    {
        self.points.len()
    }

    /// How many curves the store holds.
    pub fn curve_count(&self) -> (r: usize)
        ensures
            r == self.curves_view().len(),
    {
        self.curves.len()
    }

    /// How many surfaces the store holds.
    pub fn surface_count(&self) -> (r: usize)
        ensures
            r == self.surfaces_view().len(),
    {
        self.surfaces.len()
    }

    /// How many vertices the store holds.
    pub fn vertex_count(&self) -> (r: usize)
        ensures
            r == self.vertices_view().len(),
    {
        self.vertices.len()
    }

    /// How many edges the store holds.
    pub fn edge_count(&self) -> (r: usize)
        ensures
            r == self.edges_view().len(),
    {
        self.edges.len()
    }

    /// How many cycles the store holds.
    pub fn cycle_count(&self) -> (r: usize)
        ensures
            r == self.cycles_view().len(),
    {
        self.cycles.len()
    }

    /// How many faces the store holds.
    pub fn face_count(&self) -> (r: usize)
        ensures
            r == self.faces_view().len(),
    {
        self.faces.len()
    }

    /// How many regions the store holds.
    pub fn region_count(&self) -> (r: usize)
        ensures
            r == self.regions_view().len(),
    {
        self.regions.len()
    }

    /// The stored faces, for read-only traversal.
    pub fn faces(&self) -> (r: &Vec<Face>)
        ensures
            r@.len() == self.faces_view().len(),
            forall|i: int| 0 <= i < r@.len() ==> (#[trigger] r@[i])@ == self.faces_view()[i],
    {
        &self.faces
    }

    /// Inserts or reuses a region.
    pub fn get_handle_or_insert_region(&mut self, v: Region) -> (r: Handle<Region>)
        requires
            old(self).wf(),
        ensures
            final(self).wf(),
            final(self).points_view() == old(self).points_view(),
            final(self).curves_view() == old(self).curves_view(),
            final(self).surfaces_view() == old(self).surfaces_view(),
            final(self).vertices_view() == old(self).vertices_view(),
            final(self).edges_view() == old(self).edges_view(),
            final(self).cycles_view() == old(self).cycles_view(),
            final(self).faces_view() == old(self).faces_view(),
            r.obj@ == v@,
            final(self).regions_view() == store_insert(old(self).regions_view(), v@),
            r.id as int == store_insert_id(old(self).regions_view(), v@),
            old(self).regions_view().contains(v@) ==> *final(self) == *old(self),
    {
        let n = self.regions.len();
        let mut i: usize = 0;
        while i < n
            invariant
                i <= n,
                n == self.regions@.len(),
                *self == *old(self),
                old(self).wf(),
                forall|j: int| 0 <= j < i as int ==> self.regions_view()[j] != v@,
            decreases n - i,
        {
            if region_eq(&self.regions[i], &v) {
                let h = Handle { id: i as u64, obj: clone_region(&v) };
                proof {
                    lemma_first_index_from_scan(self.regions_view(), v@, i as int);
                }
                return h;
            }
            i += 1;
        }
        proof {
            lemma_not_contains_from_scan(self.regions_view(), v@);
            lemma_store_insert_uniq(self.regions_view(), v@);
        }
        let id = self.regions.len() as u64;
        let h = Handle { id, obj: clone_region(&v) };
        self.regions.push(v);
        proof {
            assert(self.regions_view() =~= old(self).regions_view().push(h.obj@));
        }
        h
    }
}


} // verus!
