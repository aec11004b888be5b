//! The merge protocol: every store-resident object kind implements
//! [`Object`], whose `merge_into` canonicalizes the object's constituents
//! bottom-up and then inserts or reuses the reconstructed object.
//!
//! The contract is the same for every kind: the store only grows, the
//! returned handle names the first slot holding the object's canonicalized
//! content, and merging an object that is already canonical returns its
//! own handle without changing the store at all.

use vstd::prelude::*;

use crate::geometry::{Curve, Surface};
use crate::math::Point3;
use crate::shape::{shape_grows, Shape, ValidationResult};
use crate::store::{
    first_index_of, lemma_first_index_grows, lemma_store_insert_grows, lemma_store_insert_uniq,
    Handle,
};
use crate::topology::{clone_cycle, edge_ends_distinct, Edge, EdgeEnds, EdgeVertices, Vertex};

verus! {

/// Marker trait closing the set of store-resident object kinds: only the
/// kinds defined here take part in the merge protocol.
pub trait Sealed {

}

/// A geometric or topological object kind that the store can hold.
pub trait Object: View + Sized + Sealed {
    /// The store's collection for this kind, by content.
    spec fn store_view(s: Shape) -> Seq<Self::V>;

    /// Whether the object and its constituents pass validation.
    spec fn can_merge(self) -> bool;

    /// The object's content once its references are canonicalized against
    /// the store `s`: every constituent replaced by the first slot holding
    /// its content.
    spec fn canon_view(self, s: Shape) -> Self::V;

    /// Whether the object is already canonical in `s`: equal to its own
    /// canonicalized form, with itself and all its constituents stored.
    spec fn is_canonical_in(self, s: Shape) -> bool;

    /// Merges the object into the store: canonicalizes its constituents
    /// bottom-up, then inserts or reuses the reconstructed object.
    ///
    /// Prefer [`Shape::merge`] over calling this directly.
    fn merge_into(self, handle: Option<Handle<Self>>, shape: &mut Shape) -> (r: ValidationResult<
        Self,
    >)
        requires
            old(shape).wf(),
        ensures
            final(shape).wf(),
            shape_grows(*old(shape), *final(shape)),
            r is Ok <==> self.can_merge(),
            r matches Ok(h) ==> {
                &&& h.obj@ == self.canon_view(*final(shape))
                &&& (h.id as int) < Self::store_view(*final(shape)).len()
                &&& Self::store_view(*final(shape))[h.id as int] == h.obj@
                &&& h.id as int == first_index_of(Self::store_view(*final(shape)), h.obj@)
                &&& h.obj.is_canonical_in(*final(shape))
            },
            self.is_canonical_in(*old(shape)) ==> r is Ok && *final(shape) == *old(shape),
    ;
}

impl Sealed for Point3 {

}

impl Sealed for Curve {

}

impl Sealed for Surface {

}

impl Sealed for Vertex {

}

impl Sealed for Edge {

}

impl Sealed for crate::topology::Cycle {

}

impl Sealed for crate::topology::Face {

}

impl Object for Point3 {
    open spec fn store_view(s: Shape) -> Seq<Point3> {
        s.points_view()
    }

    open spec fn can_merge(self) -> bool {
        true
    }

    open spec fn canon_view(self, s: Shape) -> Point3 {
        self
    }

    open spec fn is_canonical_in(self, s: Shape) -> bool {
        s.points_view().contains(self)
    }

    fn merge_into(self, handle: Option<Handle<Self>>, shape: &mut Shape) -> (r: ValidationResult<
        Self,
    >) {
        let h = shape.get_handle_or_insert_point(self);
        proof {
            lemma_store_insert_uniq(old(shape).points_view(), self);
            lemma_store_insert_grows(old(shape).points_view(), self);
        }
        Result::Ok(h)
    }
}

impl Object for Curve {
    open spec fn store_view(s: Shape) -> Seq<Curve> {
        s.curves_view()
    }

    open spec fn can_merge(self) -> bool {
        true
    }

    open spec fn canon_view(self, s: Shape) -> Curve {
        self
    }

    open spec fn is_canonical_in(self, s: Shape) -> bool {
        s.curves_view().contains(self)
    }

    fn merge_into(self, handle: Option<Handle<Self>>, shape: &mut Shape) -> (r: ValidationResult<
        Self,
    >) {
        let h = shape.get_handle_or_insert_curve(self);
        proof {
            lemma_store_insert_uniq(old(shape).curves_view(), self);
            lemma_store_insert_grows(old(shape).curves_view(), self);
        }
        Result::Ok(h)
    }
}

impl Object for Surface {
    open spec fn store_view(s: Shape) -> Seq<Surface> {
        s.surfaces_view()
    }

    open spec fn can_merge(self) -> bool {
        true
    }

    open spec fn canon_view(self, s: Shape) -> Surface {
        self
    }

    open spec fn is_canonical_in(self, s: Shape) -> bool {
        s.surfaces_view().contains(self)
    }

    fn merge_into(self, handle: Option<Handle<Self>>, shape: &mut Shape) -> (r: ValidationResult<
        Self,
    >) {
        let h = shape.get_handle_or_insert_surface(self);
        proof {
            lemma_store_insert_uniq(old(shape).surfaces_view(), self);
            lemma_store_insert_grows(old(shape).surfaces_view(), self);
        }
        Result::Ok(h)
    }
}


impl Object for Vertex {
    open spec fn store_view(s: Shape) -> Seq<Vertex> {
        s.vertices_view()
    }

    open spec fn can_merge(self) -> bool {
        true
    }

    open spec fn canon_view(self, s: Shape) -> Vertex {
        let pv = self.point.canonical.obj;
        Vertex {
            point: crate::store::LocalForm {
                local: pv,
                canonical: Handle { id: first_index_of(s.points_view(), pv) as u64, obj: pv },
            },
        }
    }

    open spec fn is_canonical_in(self, s: Shape) -> bool {
        &&& self == self.canon_view(s)
        &&& s.points_view().contains(self.point.canonical.obj)
        &&& s.vertices_view().contains(self)
    }

    fn merge_into(self, handle: Option<Handle<Self>>, shape: &mut Shape) -> (r: ValidationResult<
        Self,
    >) {
        let pv = self.point.canonical.obj;
        let ph = shape.get_handle_or_insert_point(pv);
        let ghost s_mid = *shape;
        let v = Vertex::new(ph);
        let h = shape.get_handle_or_insert_vertex(v);
        proof {
            lemma_store_insert_uniq(old(shape).points_view(), pv);
            lemma_store_insert_grows(old(shape).points_view(), pv);
            lemma_store_insert_uniq(s_mid.vertices_view(), v);
            lemma_store_insert_grows(s_mid.vertices_view(), v);
            assert(v == self.canon_view(*shape));
            if self.is_canonical_in(*old(shape)) {
                assert(s_mid == *old(shape));
                assert(v == self);
                assert(*shape == *old(shape));
            }
        }
        Result::Ok(h)
    }
}


/// Canonicalizing a vertex gives the same content against any store
/// extension, as long as its point was already stored.
proof fn lemma_vertex_canon_grows(v: Vertex, s1: Shape, s2: Shape)
    requires
        shape_grows(s1, s2),
        s1.points_view().contains(v.point.canonical.obj),
    ensures
        v.canon_view(s2) == v.canon_view(s1),
{
    lemma_first_index_grows(s1.points_view(), s2.points_view(), v.point.canonical.obj);
}

/// A vertex that is canonical in a store stays canonical as the store grows.
proof fn lemma_vertex_canonical_grows(v: Vertex, s1: Shape, s2: Shape)
    requires
        shape_grows(s1, s2),
        v.is_canonical_in(s1),
    ensures
        v.is_canonical_in(s2),
{
    lemma_vertex_canon_grows(v, s1, s2);
    lemma_first_index_grows(s1.points_view(), s2.points_view(), v.point.canonical.obj);
    lemma_first_index_grows(s1.vertices_view(), s2.vertices_view(), v);
}

impl Object for Edge {
    open spec fn store_view(s: Shape) -> Seq<Edge> {
        s.edges_view()
    }

    open spec fn can_merge(self) -> bool {
        edge_ends_distinct(self)
    }

    open spec fn canon_view(self, s: Shape) -> Edge {
        let cv = self.curve.canonical.obj;
        Edge {
            curve: crate::store::LocalForm {
                local: cv,
                canonical: Handle { id: first_index_of(s.curves_view(), cv) as u64, obj: cv },
            },
            vertices: match self.vertices {
                EdgeEnds::Closed => EdgeEnds::Closed,
                EdgeEnds::Ends(vv) => {
                    let ca = vv.a.canonical.obj.canon_view(s);
                    let cb = vv.b.canonical.obj.canon_view(s);
                    EdgeEnds::Ends(
                        EdgeVertices {
                            a: crate::store::LocalForm {
                                local: vv.a.local,
                                canonical: Handle {
                                    id: first_index_of(s.vertices_view(), ca) as u64,
                                    obj: ca,
                                },
                            },
                            b: crate::store::LocalForm {
                                local: vv.b.local,
                                canonical: Handle {
                                    id: first_index_of(s.vertices_view(), cb) as u64,
                                    obj: cb,
                                },
                            },
                        },
                    )
                },
            },
        }
    }

    open spec fn is_canonical_in(self, s: Shape) -> bool {
        &&& self == self.canon_view(s)
        &&& s.curves_view().contains(self.curve.canonical.obj)
        &&& match self.vertices {
            EdgeEnds::Closed => true,
            EdgeEnds::Ends(vv) => vv.a.canonical.obj.is_canonical_in(s)
                && vv.b.canonical.obj.is_canonical_in(s),
        }
        &&& s.edges_view().contains(self)
    }

    fn merge_into(self, handle: Option<Handle<Self>>, shape: &mut Shape) -> (r: ValidationResult<
        Self,
    >) {
        let cv = self.curve.canonical.obj;
        let ch = shape.get_handle_or_insert_curve(cv);
        let ghost s1 = *shape;
        proof {
            lemma_store_insert_uniq(old(shape).curves_view(), cv);
            lemma_store_insert_grows(old(shape).curves_view(), cv);
        }
        let vertices = match self.vertices {
            EdgeEnds::Closed => EdgeEnds::Closed,
            EdgeEnds::Ends(vv) => {
                let va = vv.a.canonical.obj;
                let vb = vv.b.canonical.obj;
                let ha = match va.merge_into(Option::None, shape) {
                    Result::Ok(h) => h,
                    Result::Err(e) => {
                        proof {
                            assert(false);
                        }
                        return Result::Err(e);
                    },
                };
                let ghost s2 = *shape;
                let hb = match vb.merge_into(Option::None, shape) {
                    Result::Ok(h) => h,
                    Result::Err(e) => {
                        proof {
                            assert(false);
                        }
                        return Result::Err(e);
                    },
                };
                let ghost s3 = *shape;
                proof {
                    lemma_vertex_canon_grows(va, s2, s3);
                    lemma_vertex_canonical_grows(ha.obj, s2, s3);
                    lemma_first_index_grows(s2.vertices_view(), s3.vertices_view(), ha.obj);
                }
                EdgeEnds::Ends(
                    EdgeVertices {
                        a: crate::store::LocalForm::new(vv.a.local, ha),
                        b: crate::store::LocalForm::new(vv.b.local, hb),
                    },
                )
            },
        };
        let ghost s3 = *shape;
        let e = Edge::new(ch, vertices);
        proof {
            lemma_first_index_grows(s1.curves_view(), s3.curves_view(), cv);
            assert(e == self.canon_view(s3));
        }
        match shape.get_handle_or_insert_edge(e) {
            Result::Ok(h) => {
                proof {
                    lemma_store_insert_uniq(s3.edges_view(), e);
                    lemma_store_insert_grows(s3.edges_view(), e);
                    lemma_first_index_grows(s3.curves_view(), shape.curves_view(), cv);
                    assert(e == self.canon_view(*shape));
                    match self.vertices {
                        EdgeEnds::Closed => {},
                        EdgeEnds::Ends(vv) => {
                            let hav = e.curve;
                            match e.vertices {
                                EdgeEnds::Closed => {},
                                EdgeEnds::Ends(cvv) => {
                                    lemma_vertex_canonical_grows(
                                        cvv.a.canonical.obj,
                                        s3,
                                        *shape,
                                    );
                                    lemma_vertex_canonical_grows(
                                        cvv.b.canonical.obj,
                                        s3,
                                        *shape,
                                    );
                                    lemma_vertex_canon_grows(cvv.a.canonical.obj, s3, *shape);
                                    lemma_vertex_canon_grows(cvv.b.canonical.obj, s3, *shape);
                                    lemma_first_index_grows(
                                        s3.vertices_view(),
                                        shape.vertices_view(),
                                        cvv.a.canonical.obj,
                                    );
                                    lemma_first_index_grows(
                                        s3.vertices_view(),
                                        shape.vertices_view(),
                                        cvv.b.canonical.obj,
                                    );
                                },
                            }
                        },
                    }
                    assert(e.is_canonical_in(*shape));
                    if self.is_canonical_in(*old(shape)) {
                        assert(*shape == *old(shape));
                    }
                }
                Result::Ok(h)
            },
            Result::Err(err) => {
                proof {
                    assert(!edge_ends_distinct(e));
                    assert(!edge_ends_distinct(self));
                    if self.is_canonical_in(*old(shape)) {
                        let i = choose|i: int|
                            0 <= i < old(shape).edges_view().len() && old(
                                shape,
                            ).edges_view()[i] == self;
                        assert(edge_ends_distinct(old(shape).edges_view()[i]));
                        assert(false);
                    }
                }
                Result::Err(err)
            },
        }
    }
}


/// Canonicalizing an edge gives the same content against any store
/// extension, as long as its constituents' contents were already stored.
proof fn lemma_edge_canon_grows(e: Edge, s1: Shape, s2: Shape)
    requires
        shape_grows(s1, s2),
        s1.curves_view().contains(e.curve.canonical.obj),
        match e.vertices {
            EdgeEnds::Closed => true,
            EdgeEnds::Ends(vv) => s1.points_view().contains(
                vv.a.canonical.obj.point.canonical.obj,
            ) && s1.points_view().contains(vv.b.canonical.obj.point.canonical.obj)
                && s1.vertices_view().contains(vv.a.canonical.obj.canon_view(s1))
                && s1.vertices_view().contains(vv.b.canonical.obj.canon_view(s1)),
        },
    ensures
        e.canon_view(s2) == e.canon_view(s1),
{
    lemma_first_index_grows(s1.curves_view(), s2.curves_view(), e.curve.canonical.obj);
    match e.vertices {
        EdgeEnds::Closed => {},
        EdgeEnds::Ends(vv) => {
            lemma_vertex_canon_grows(vv.a.canonical.obj, s1, s2);
            lemma_vertex_canon_grows(vv.b.canonical.obj, s1, s2);
            lemma_first_index_grows(
                s1.vertices_view(),
                s2.vertices_view(),
                vv.a.canonical.obj.canon_view(s1),
            );
            lemma_first_index_grows(
                s1.vertices_view(),
                s2.vertices_view(),
                vv.b.canonical.obj.canon_view(s1),
            );
        },
    }
}

/// An edge that is canonical in a store stays canonical as the store grows.
proof fn lemma_edge_canonical_grows(e: Edge, s1: Shape, s2: Shape)
    requires
        shape_grows(s1, s2),
        e.is_canonical_in(s1),
    ensures
        e.is_canonical_in(s2),
{
    match e.vertices {
        EdgeEnds::Closed => {},
        EdgeEnds::Ends(vv) => {
            lemma_vertex_canonical_grows(vv.a.canonical.obj, s1, s2);
            lemma_vertex_canonical_grows(vv.b.canonical.obj, s1, s2);
        },
    }
    lemma_edge_canon_grows(e, s1, s2);
    lemma_first_index_grows(s1.edges_view(), s2.edges_view(), e);
}


/// A cycle's content once its edges are canonicalized against `s`.
pub open spec fn cycle_content_canon(
    edges: Seq<crate::store::LocalForm<Edge, Edge>>,
    s: Shape,
) -> Seq<crate::store::LocalForm<Edge, Edge>> {
    Seq::new(
        edges.len(),
        |i: int|
            {
                let ce = edges[i].canonical.obj.canon_view(s);
                crate::store::LocalForm {
                    local: ce,
                    canonical: Handle { id: first_index_of(s.edges_view(), ce) as u64, obj: ce },
                }
            },
    )
}

/// Whether a cycle's content is canonical in `s`: equal to its own
/// canonicalized form, with itself and its edges stored.
pub open spec fn cycle_content_canonical(
    edges: Seq<crate::store::LocalForm<Edge, Edge>>,
    s: Shape,
) -> bool {
    &&& edges == cycle_content_canon(edges, s)
    &&& forall|i: int|
        0 <= i < edges.len() ==> (#[trigger] edges[i]).canonical.obj.is_canonical_in(s)
    &&& s.cycles_view().contains(edges)
}

impl Object for crate::topology::Cycle {
    open spec fn store_view(s: Shape) -> Seq<Seq<crate::store::LocalForm<Edge, Edge>>> {
        s.cycles_view()
    }

    open spec fn can_merge(self) -> bool {
        self.edges@.len() > 0 && forall|i: int|
            0 <= i < self.edges@.len() ==> edge_ends_distinct(
                (#[trigger] self.edges@[i]).canonical.obj,
            )
    }

    open spec fn canon_view(self, s: Shape) -> Seq<crate::store::LocalForm<Edge, Edge>> {
        cycle_content_canon(self.edges@, s)
    }

    open spec fn is_canonical_in(self, s: Shape) -> bool {
        cycle_content_canonical(self.edges@, s)
    }

    fn merge_into(self, handle: Option<Handle<Self>>, shape: &mut Shape) -> (r: ValidationResult<
        Self,
    >) {
        let mut edges: Vec<Handle<Edge>> = Vec::new();
        let n = self.edges.len();
        let mut i: usize = 0;
        while i < n
            invariant
                i <= n,
                n == self.edges@.len(),
                old(shape).wf(),
                shape.wf(),
                shape_grows(*old(shape), *shape),
                edges@.len() == i as int,
                forall|j: int|
                    0 <= j < i as int ==> edge_ends_distinct(
                        (#[trigger] self.edges@[j]).canonical.obj,
                    ),
                forall|j: int|
                    0 <= j < i as int ==> (#[trigger] edges@[j]).obj
                        == self.edges@[j].canonical.obj.canon_view(*shape) && edges@[j].obj.is_canonical_in(
                        *shape,
                    ) && edges@[j].id as int == first_index_of(shape.edges_view(), edges@[j].obj),
                self.is_canonical_in(*old(shape)) ==> *shape == *old(shape),
            decreases n - i,
        {
            let ghost s_pre = *shape;
            let orig = self.edges[i].canonical.obj;
            let h = match orig.merge_into(Option::None, shape) {
                Result::Ok(h) => h,
                Result::Err(e) => {
                    proof {
                        assert(!edge_ends_distinct(self.edges@[i as int].canonical.obj));
                        if self.is_canonical_in(*old(shape)) {
                            assert(orig.is_canonical_in(s_pre));
                            let k = choose|k: int|
                                0 <= k < s_pre.edges_view().len() && s_pre.edges_view()[k]
                                    == orig;
                            assert(edge_ends_distinct(s_pre.edges_view()[k]));
                            assert(false);
                        }
                    }
                    return Result::Err(e);
                },
            };
            proof {
                if self.is_canonical_in(*old(shape)) {
                    assert(orig.is_canonical_in(s_pre));
                }
                assert forall|j: int| 0 <= j < i as int implies (#[trigger] edges@[j]).obj
                    == self.edges@[j].canonical.obj.canon_view(*shape)
                    && edges@[j].obj.is_canonical_in(*shape) && edges@[j].id as int
                    == first_index_of(shape.edges_view(), edges@[j].obj) by {
                    let prev = self.edges@[j].canonical.obj;
                    lemma_edge_canonical_grows(edges@[j].obj, s_pre, *shape);
                    lemma_edge_canon_grows(prev, s_pre, *shape);
                    lemma_first_index_grows(
                        s_pre.edges_view(),
                        shape.edges_view(),
                        edges@[j].obj,
                    );
                }
            }
            edges.push(h);
            i += 1;
        }
        let ghost s_end = *shape;
        let c = crate::topology::Cycle::new(edges);
        proof {
            assert(c@ =~= self.canon_view(s_end));
        }
        match shape.get_handle_or_insert_cycle(c) {
            Result::Ok(h) => {
                proof {
                    lemma_store_insert_uniq(s_end.cycles_view(), c@);
                    lemma_store_insert_grows(s_end.cycles_view(), c@);
                    assert forall|j: int| 0 <= j < n as int implies (
                    #[trigger] self.edges@[j]).canonical.obj.canon_view(*shape)
                        == self.edges@[j].canonical.obj.canon_view(s_end) && c@[j].canonical.obj.is_canonical_in(
                        *shape,
                    ) && c@[j].canonical.id as int == first_index_of(
                        shape.edges_view(),
                        c@[j].canonical.obj,
                    ) by {
                        lemma_edge_canon_grows(self.edges@[j].canonical.obj, s_end, *shape);
                        lemma_edge_canonical_grows(c@[j].canonical.obj, s_end, *shape);
                        assert(c@[j] == self.canon_view(s_end)[j]);
                        lemma_first_index_grows(
                            s_end.edges_view(),
                            shape.edges_view(),
                            c@[j].canonical.obj,
                        );
                    }
                    assert(c@ =~= self.canon_view(*shape));
                    assert(h.obj@ == self.canon_view(*shape));
                    assert forall|j: int| 0 <= j < h.obj.edges@.len() implies (
                    #[trigger] h.obj.edges@[j]).canonical.obj.is_canonical_in(*shape) by {
                        assert(h.obj.edges@[j] == c@[j]);
                    }
                    assert(h.obj@ =~= h.obj.canon_view(*shape));
                    assert(h.obj.is_canonical_in(*shape));
                    if self.is_canonical_in(*old(shape)) {
                        assert(s_end == *old(shape));
                        assert(c@ =~= self@);
                        assert(*shape == *old(shape));
                    }
                }
                Result::Ok(h)
            },
            Result::Err(err) => {
                proof {
                    assert(c@.len() == 0);
                    assert(!self.can_merge());
                    if self.is_canonical_in(*old(shape)) {
                        let k = choose|k: int|
                            0 <= k < s_end.cycles_view().len() && s_end.cycles_view()[k]
                                == self@;
                        assert(s_end.cycles_view()[k].len() > 0);
                        assert(false);
                    }
                }
                Result::Err(err)
            },
        }
    }
}


/// Canonicalizing a cycle gives the same content against any store
/// extension, as long as its canonicalized edges were already stored.
proof fn lemma_cycle_canon_grows(
    edges: Seq<crate::store::LocalForm<Edge, Edge>>,
    s1: Shape,
    s2: Shape,
)
    requires
        shape_grows(s1, s2),
        forall|i: int|
            0 <= i < edges.len() ==> (#[trigger] edges[i]).canonical.obj.canon_view(
                s1,
            ).is_canonical_in(s1),
    ensures
        cycle_content_canon(edges, s2) == cycle_content_canon(edges, s1),
{
    assert forall|i: int| 0 <= i < edges.len() implies (
    #[trigger] edges[i]).canonical.obj.canon_view(s2) == edges[i].canonical.obj.canon_view(
        s1,
    ) && first_index_of(s2.edges_view(), edges[i].canonical.obj.canon_view(s1))
        == first_index_of(s1.edges_view(), edges[i].canonical.obj.canon_view(s1)) by {
        let orig = edges[i].canonical.obj;
        let ce = orig.canon_view(s1);
        match ce.vertices {
            EdgeEnds::Closed => {},
            EdgeEnds::Ends(cvv) => {
                assert(cvv.a.canonical.obj.is_canonical_in(s1));
                assert(cvv.b.canonical.obj.is_canonical_in(s1));
            },
        }
        lemma_edge_canon_grows(orig, s1, s2);
        lemma_first_index_grows(s1.edges_view(), s2.edges_view(), ce);
    }
    assert(cycle_content_canon(edges, s2) =~= cycle_content_canon(edges, s1));
}

/// A cycle whose content is canonical in a store stays canonical as the
/// store grows.
proof fn lemma_cycle_canonical_grows(
    edges: Seq<crate::store::LocalForm<Edge, Edge>>,
    s1: Shape,
    s2: Shape,
)
    requires
        shape_grows(s1, s2),
        cycle_content_canonical(edges, s1),
    ensures
        cycle_content_canonical(edges, s2),
{
    assert forall|i: int| 0 <= i < edges.len() implies (
    #[trigger] edges[i]).canonical.obj.canon_view(s1).is_canonical_in(s1) by {
        assert(edges[i] == cycle_content_canon(edges, s1)[i]);
        assert(edges[i].canonical.obj == edges[i].canonical.obj.canon_view(s1));
    }
    lemma_cycle_canon_grows(edges, s1, s2);
    assert forall|i: int| 0 <= i < edges.len() implies (
    #[trigger] edges[i]).canonical.obj.is_canonical_in(s2) by {
        lemma_edge_canonical_grows(edges[i].canonical.obj, s1, s2);
    }
    lemma_first_index_grows(s1.cycles_view(), s2.cycles_view(), edges);
}

/// Merges each referenced cycle into the store, bottom-up, handing back
/// their canonical handles in order.
fn merge_cycles(
    cycles: &Vec<crate::store::LocalForm<crate::topology::Cycle, crate::topology::Cycle>>,
    shape: &mut Shape,
) -> (r: Result<Vec<Handle<crate::topology::Cycle>>, crate::shape::ValidationError>)
    requires
        old(shape).wf(),
    ensures
        final(shape).wf(),
        shape_grows(*old(shape), *final(shape)),
        r is Ok <==> (forall|i: int|
            0 <= i < cycles@.len() ==> (#[trigger] cycles@[i]).canonical.obj.can_merge()),
        r matches Ok(hs) ==> {
            &&& hs@.len() == cycles@.len()
            &&& forall|j: int|
                0 <= j < cycles@.len() ==> {
                    &&& (#[trigger] hs@[j]).obj@ == cycles@[j].canonical.obj.canon_view(
                        *final(shape),
                    )
                    &&& hs@[j].obj.is_canonical_in(*final(shape))
                    &&& hs@[j].id as int == first_index_of(
                        final(shape).cycles_view(),
                        hs@[j].obj@,
                    )
                }
        },
        (forall|i: int|
            0 <= i < cycles@.len() ==> (#[trigger] cycles@[i]).canonical.obj.is_canonical_in(
                *old(shape),
            )) ==> r is Ok && *final(shape) == *old(shape),
{
    let mut hs: Vec<Handle<crate::topology::Cycle>> = Vec::new();
    let n = cycles.len();
    let mut i: usize = 0;
    while i < n
        invariant
            i <= n,
            n == cycles@.len(),
            old(shape).wf(),
            shape.wf(),
            shape_grows(*old(shape), *shape),
            hs@.len() == i as int,
            forall|j: int|
                0 <= j < i as int ==> (#[trigger] cycles@[j]).canonical.obj.can_merge(),
            forall|j: int|
                0 <= j < i as int ==> {
                    &&& (#[trigger] hs@[j]).obj@ == cycles@[j].canonical.obj.canon_view(*shape)
                    &&& hs@[j].obj.is_canonical_in(*shape)
                    &&& hs@[j].id as int == first_index_of(shape.cycles_view(), hs@[j].obj@)
                },
            (forall|k: int|
                0 <= k < cycles@.len() ==> (#[trigger] cycles@[k]).canonical.obj.is_canonical_in(
                    *old(shape),
                )) ==> *shape == *old(shape),
        decreases n - i,
    {
        let ghost s_pre = *shape;
        let orig = clone_cycle(&cycles[i].canonical.obj);
        let ghost orig_v = cycles@[i as int].canonical.obj;
        proof {
            assert(orig@ == orig_v@);
        }
        let h = match orig.merge_into(Option::None, shape) {
            Result::Ok(h) => h,
            Result::Err(e) => {
                proof {
                    assert(!orig.can_merge());
                    assert(!orig_v.can_merge());
                    if forall|k: int|
                        0 <= k < cycles@.len() ==> (
                        #[trigger] cycles@[k]).canonical.obj.is_canonical_in(*old(shape)) {
                        assert(orig_v.is_canonical_in(s_pre));
                        lemma_canonical_cycle_can_merge(orig_v, s_pre);
                        assert(false);
                    }
                }
                return Result::Err(e);
            },
        };
        proof {
            if forall|k: int|
                0 <= k < cycles@.len() ==> (#[trigger] cycles@[k]).canonical.obj.is_canonical_in(
                    *old(shape),
                ) {
                assert(orig_v.is_canonical_in(s_pre));
                assert(orig.is_canonical_in(s_pre)) by {
                    lemma_cycle_view_canonical(orig, orig_v, s_pre);
                }
            }
            assert forall|j: int| 0 <= j < i as int implies {
                &&& (#[trigger] hs@[j]).obj@ == cycles@[j].canonical.obj.canon_view(*shape)
                &&& hs@[j].obj.is_canonical_in(*shape)
                &&& hs@[j].id as int == first_index_of(shape.cycles_view(), hs@[j].obj@)
            } by {
                let prev = cycles@[j].canonical.obj;
                assert forall|m: int| 0 <= m < prev.edges@.len() implies (
                #[trigger] prev.edges@[m]).canonical.obj.canon_view(s_pre).is_canonical_in(
                    s_pre,
                ) by {
                    assert(hs@[j].obj@[m] == prev.canon_view(s_pre)[m]);
                    assert(hs@[j].obj.edges@[m].canonical.obj.is_canonical_in(s_pre));
                }
                lemma_cycle_canon_grows(prev.edges@, s_pre, *shape);
                lemma_cycle_canonical_grows(hs@[j].obj.edges@, s_pre, *shape);
                lemma_first_index_grows(s_pre.cycles_view(), shape.cycles_view(), hs@[j].obj@);
            }
        }
        hs.push(h);
        i += 1;
    }
    Result::Ok(hs)
}

/// A cycle whose content is stored in a well-formed store passes merge
/// validation: stores hold only validated objects.
proof fn lemma_canonical_cycle_can_merge(c: crate::topology::Cycle, s: Shape)
    requires
        s.wf(),
        c.is_canonical_in(s),
    ensures
        c.can_merge(),
{
    let k = choose|k: int| 0 <= k < s.cycles_view().len() && s.cycles_view()[k] == c@;
    assert(s.cycles_view()[k].len() > 0);
    assert forall|i: int| 0 <= i < c.edges@.len() implies edge_ends_distinct(
        (#[trigger] c.edges@[i]).canonical.obj,
    ) by {
        let e = c.edges@[i].canonical.obj;
        assert(e.is_canonical_in(s));
        let m = choose|m: int| 0 <= m < s.edges_view().len() && s.edges_view()[m] == e;
        assert(edge_ends_distinct(s.edges_view()[m]));
    }
}

/// Two cycles with the same content are canonical in the same stores.
proof fn lemma_cycle_view_canonical(
    a: crate::topology::Cycle,
    b: crate::topology::Cycle,
    s: Shape,
)
    requires
        a@ == b@,
        b.is_canonical_in(s),
    ensures
        a.is_canonical_in(s),
{
    assert(a.canon_view(s) =~= b.canon_view(s));
}


/// The content of a face boundary once each cycle is canonicalized: every
/// local form becomes the canonical cycle content itself.
pub open spec fn cifv_canon(cs: Seq<crate::topology::LfCycleV>, s: Shape) -> Seq<
    crate::topology::LfCycleV,
> {
    Seq::new(
        cs.len(),
        |i: int|
            {
                let cc = cycle_content_canon(cs[i].canonical.edges, s);
                crate::topology::LfCycleV {
                    local: cc,
                    canonical: crate::topology::HandleCycleV {
                        id: first_index_of(s.cycles_view(), cc) as u64,
                        edges: cc,
                    },
                }
            },
    )
}

/// A face's content once its surface and cycles are canonicalized.
pub open spec fn face_v_canon(v: crate::topology::FaceV, s: Shape) -> crate::topology::FaceV {
    match v {
        crate::topology::FaceV::BRep { surface, exteriors, interiors, color } => (
        crate::topology::FaceV::BRep {
            surface: Handle {
                id: first_index_of(s.surfaces_view(), surface.obj) as u64,
                obj: surface.obj,
            },
            exteriors: cifv_canon(exteriors, s),
            interiors: cifv_canon(interiors, s),
            color,
        }),
        crate::topology::FaceV::Triangles { triangles } => v,
    }
}

/// Whether a face's content is canonical in `s`.
pub open spec fn face_v_canonical(v: crate::topology::FaceV, s: Shape) -> bool {
    match v {
        crate::topology::FaceV::BRep { surface, exteriors, interiors, color } => {
            &&& v == face_v_canon(v, s)
            &&& s.surfaces_view().contains(surface.obj)
            &&& forall|i: int|
                0 <= i < exteriors.len() ==> cycle_content_canonical(
                    (#[trigger] exteriors[i]).canonical.edges,
                    s,
                )
            &&& forall|i: int|
                0 <= i < interiors.len() ==> cycle_content_canonical(
                    (#[trigger] interiors[i]).canonical.edges,
                    s,
                )
            &&& s.faces_view().contains(v)
        },
        crate::topology::FaceV::Triangles { triangles } => s.faces_view().contains(v),
    }
}

impl Object for crate::topology::Face {
    open spec fn store_view(s: Shape) -> Seq<crate::topology::FaceV> {
        s.faces_view()
    }

    open spec fn can_merge(self) -> bool {
        match self {
            crate::topology::Face::Face(brep) => {
                &&& forall|i: int|
                    0 <= i < brep.exteriors.cycles@.len() ==> (
                    #[trigger] brep.exteriors.cycles@[i]).canonical.obj.can_merge()
                &&& forall|i: int|
                    0 <= i < brep.interiors.cycles@.len() ==> (
                    #[trigger] brep.interiors.cycles@[i]).canonical.obj.can_merge()
            },
            crate::topology::Face::Triangles(triangles) => true,
        }
    }

    open spec fn canon_view(self, s: Shape) -> crate::topology::FaceV {
        face_v_canon(self@, s)
    }

    open spec fn is_canonical_in(self, s: Shape) -> bool {
        face_v_canonical(self@, s)
    }

    fn merge_into(self, handle: Option<Handle<Self>>, shape: &mut Shape) -> (r: ValidationResult<
        Self,
    >) {
        match self {
            crate::topology::Face::Face(brep) => {
                let sh = shape.get_handle_or_insert_surface(brep.surface.obj);
                let ghost s1 = *shape;
                proof {
                    lemma_store_insert_uniq(old(shape).surfaces_view(), brep.surface.obj);
                    lemma_store_insert_grows(old(shape).surfaces_view(), brep.surface.obj);
                }
                let exts = match merge_cycles(brep.exteriors.as_local_form(), shape) {
                    Result::Ok(v) => v,
                    Result::Err(e) => {
                        proof {
                            if self.is_canonical_in(*old(shape)) {
                                assert(s1 == *old(shape));
                                assert forall|k: int|
                                    0 <= k < brep.exteriors.cycles@.len() implies (
                                #[trigger] brep.exteriors.cycles@[k]).canonical.obj.is_canonical_in(
                                    s1,
                                ) by {
                                    assert(brep.exteriors@[k] == crate::topology::lf_cycle_v(
                                        brep.exteriors.cycles@[k],
                                    ));
                                    assert(cycle_content_canonical(
                                        brep.exteriors@[k].canonical.edges,
                                        *old(shape),
                                    ));
                                }
                                assert(false);
                            }
                        }
                        return Result::Err(e);
                    },
                };
                let ghost s2 = *shape;
                let ints = match merge_cycles(brep.interiors.as_local_form(), shape) {
                    Result::Ok(v) => v,
                    Result::Err(e) => {
                        proof {
                            if self.is_canonical_in(*old(shape)) {
                                assert(s1 == *old(shape));
                                assert forall|k: int|
                                    0 <= k < brep.exteriors.cycles@.len() implies (
                                #[trigger] brep.exteriors.cycles@[k]).canonical.obj.is_canonical_in(
                                    s1,
                                ) by {
                                    assert(brep.exteriors@[k] == crate::topology::lf_cycle_v(
                                        brep.exteriors.cycles@[k],
                                    ));
                                    assert(cycle_content_canonical(
                                        brep.exteriors@[k].canonical.edges,
                                        *old(shape),
                                    ));
                                }
                                assert(s2 == *old(shape));
                                assert forall|k: int|
                                    0 <= k < brep.interiors.cycles@.len() implies (
                                #[trigger] brep.interiors.cycles@[k]).canonical.obj.is_canonical_in(
                                    s2,
                                ) by {
                                    assert(brep.interiors@[k] == crate::topology::lf_cycle_v(
                                        brep.interiors.cycles@[k],
                                    ));
                                    assert(cycle_content_canonical(
                                        brep.interiors@[k].canonical.edges,
                                        *old(shape),
                                    ));
                                }
                                assert(false);
                            }
                        }
                        return Result::Err(e);
                    },
                };
                let ghost s3 = *shape;
                proof {
                    assert forall|j: int| 0 <= j < exts@.len() implies {
                        &&& (#[trigger] exts@[j]).obj@ == cycle_content_canon(
                            brep.exteriors.cycles@[j].canonical.obj.edges@,
                            s3,
                        )
                        &&& exts@[j].obj.is_canonical_in(s3)
                        &&& exts@[j].id as int == first_index_of(s3.cycles_view(), exts@[j].obj@)
                    } by {
                        let prev = brep.exteriors.cycles@[j].canonical.obj;
                        assert forall|m: int| 0 <= m < prev.edges@.len() implies (
                        #[trigger] prev.edges@[m]).canonical.obj.canon_view(s2).is_canonical_in(
                            s2,
                        ) by {
                            assert(exts@[j].obj@[m] == prev.canon_view(s2)[m]);
                            assert(exts@[j].obj.edges@[m].canonical.obj.is_canonical_in(s2));
                        }
                        lemma_cycle_canon_grows(prev.edges@, s2, s3);
                        lemma_cycle_canonical_grows(exts@[j].obj.edges@, s2, s3);
                        lemma_first_index_grows(s2.cycles_view(), s3.cycles_view(), exts@[j].obj@);
                    }
                }
                let f = crate::topology::Face::new(sh, exts, ints, brep.color);
                let ghost fv = f@;
                let h = shape.get_handle_or_insert_face(f);
                proof {
                    lemma_store_insert_uniq(s3.faces_view(), fv);
                    lemma_store_insert_grows(s3.faces_view(), fv);
                    lemma_first_index_grows(s1.surfaces_view(), shape.surfaces_view(), brep.surface.obj);
                    assert forall|j: int| 0 <= j < exts@.len() implies {
                        &&& (#[trigger] exts@[j]).obj@ == cycle_content_canon(
                            brep.exteriors.cycles@[j].canonical.obj.edges@,
                            *shape,
                        )
                        &&& cycle_content_canonical(exts@[j].obj@, *shape)
                        &&& exts@[j].id as int == first_index_of(shape.cycles_view(), exts@[j].obj@)
                        &&& cycle_content_canon(exts@[j].obj@, *shape) == exts@[j].obj@
                    } by {
                        let prev = brep.exteriors.cycles@[j].canonical.obj;
                        assert forall|m: int| 0 <= m < prev.edges@.len() implies (
                        #[trigger] prev.edges@[m]).canonical.obj.canon_view(s3).is_canonical_in(
                            s3,
                        ) by {
                            assert(exts@[j].obj@[m] == cycle_content_canon(prev.edges@, s3)[m]);
                            assert(exts@[j].obj.edges@[m].canonical.obj.is_canonical_in(s3));
                        }
                        lemma_cycle_canon_grows(prev.edges@, s3, *shape);
                        lemma_cycle_canonical_grows(exts@[j].obj.edges@, s3, *shape);
                        lemma_first_index_grows(s3.cycles_view(), shape.cycles_view(), exts@[j].obj@);
                        assert(cycle_content_canonical(exts@[j].obj@, *shape));
                        assert(exts@[j].obj@ == cycle_content_canon(exts@[j].obj@, *shape));
                    }
                    assert forall|j: int| 0 <= j < ints@.len() implies {
                        &&& (#[trigger] ints@[j]).obj@ == cycle_content_canon(
                            brep.interiors.cycles@[j].canonical.obj.edges@,
                            *shape,
                        )
                        &&& cycle_content_canonical(ints@[j].obj@, *shape)
                        &&& ints@[j].id as int == first_index_of(shape.cycles_view(), ints@[j].obj@)
                        &&& cycle_content_canon(ints@[j].obj@, *shape) == ints@[j].obj@
                    } by {
                        let prev = brep.interiors.cycles@[j].canonical.obj;
                        assert forall|m: int| 0 <= m < prev.edges@.len() implies (
                        #[trigger] prev.edges@[m]).canonical.obj.canon_view(s3).is_canonical_in(
                            s3,
                        ) by {
                            assert(ints@[j].obj@[m] == cycle_content_canon(prev.edges@, s3)[m]);
                            assert(ints@[j].obj.edges@[m].canonical.obj.is_canonical_in(s3));
                        }
                        lemma_cycle_canon_grows(prev.edges@, s3, *shape);
                        lemma_cycle_canonical_grows(ints@[j].obj.edges@, s3, *shape);
                        lemma_first_index_grows(s3.cycles_view(), shape.cycles_view(), ints@[j].obj@);
                        assert(cycle_content_canonical(ints@[j].obj@, *shape));
                        assert(ints@[j].obj@ == cycle_content_canon(ints@[j].obj@, *shape));
                    }
                    assert(crate::topology::cif_of_handles(exts@) =~= cifv_canon(
                        brep.exteriors@,
                        *shape,
                    ));
                    assert(crate::topology::cif_of_handles(ints@) =~= cifv_canon(
                        brep.interiors@,
                        *shape,
                    ));
                    assert(fv == face_v_canon(self@, *shape));
                    assert(cifv_canon(crate::topology::cif_of_handles(exts@), *shape)
                        =~= crate::topology::cif_of_handles(exts@));
                    assert(cifv_canon(crate::topology::cif_of_handles(ints@), *shape)
                        =~= crate::topology::cif_of_handles(ints@));
                    assert(fv == face_v_canon(fv, *shape));
                    assert(face_v_canonical(h.obj@, *shape));
                    if self.is_canonical_in(*old(shape)) {
                        assert(s1 == *old(shape));
                        assert forall|k: int|
                            0 <= k < brep.exteriors.cycles@.len() implies (
                        #[trigger] brep.exteriors.cycles@[k]).canonical.obj.is_canonical_in(
                            s1,
                        ) by {
                            assert(brep.exteriors@[k] == crate::topology::lf_cycle_v(
                                brep.exteriors.cycles@[k],
                            ));
                            assert(cycle_content_canonical(
                                brep.exteriors@[k].canonical.edges,
                                *old(shape),
                            ));
                        }
                        assert(s2 == *old(shape));
                        assert forall|k: int|
                            0 <= k < brep.interiors.cycles@.len() implies (
                        #[trigger] brep.interiors.cycles@[k]).canonical.obj.is_canonical_in(
                            s2,
                        ) by {
                            assert(brep.interiors@[k] == crate::topology::lf_cycle_v(
                                brep.interiors.cycles@[k],
                            ));
                            assert(cycle_content_canonical(
                                brep.interiors@[k].canonical.edges,
                                *old(shape),
                            ));
                        }
                        assert(s3 == *old(shape));
                        assert(crate::topology::cif_of_handles(exts@) =~= brep.exteriors@) by {
                            assert forall|k: int| 0 <= k < exts@.len() implies crate::topology::cif_of_handles(
                                exts@,
                            )[k] == brep.exteriors@[k] by {
                                assert(brep.exteriors@[k] == crate::topology::lf_cycle_v(
                                    brep.exteriors.cycles@[k],
                                ));
                                assert(cycle_content_canonical(
                                    brep.exteriors@[k].canonical.edges,
                                    *old(shape),
                                ));
                                assert(exts@[k].obj@ == cycle_content_canon(
                                    brep.exteriors.cycles@[k].canonical.obj.edges@,
                                    s2,
                                ));
                            }
                        }
                        assert(crate::topology::cif_of_handles(ints@) =~= brep.interiors@) by {
                            assert forall|k: int| 0 <= k < ints@.len() implies crate::topology::cif_of_handles(
                                ints@,
                            )[k] == brep.interiors@[k] by {
                                assert(brep.interiors@[k] == crate::topology::lf_cycle_v(
                                    brep.interiors.cycles@[k],
                                ));
                                assert(cycle_content_canonical(
                                    brep.interiors@[k].canonical.edges,
                                    *old(shape),
                                ));
                                assert(ints@[k].obj@ == cycle_content_canon(
                                    brep.interiors.cycles@[k].canonical.obj.edges@,
                                    s3,
                                ));
                            }
                        }
                        assert(fv == self@);
                        assert(*shape == *old(shape));
                    }
                }
                Result::Ok(h)
            },
            crate::topology::Face::Triangles(triangles) => {
                let ghost self_v = crate::topology::Face::Triangles(triangles)@;
                let h = shape.get_handle_or_insert_face(crate::topology::Face::Triangles(triangles));
                proof {
                    lemma_store_insert_uniq(old(shape).faces_view(), self_v);
                    lemma_store_insert_grows(old(shape).faces_view(), self_v);
                }
                Result::Ok(h)
            },
        }
    }
}


/// Deduplication across merges: any two merges, even against different
/// moments of one growing store, that canonicalize to the same content
/// hand back the same slot. The requires are exactly what `merge_into`
/// ensures of each returned handle.
pub proof fn lemma_merge_deduplicates<T: Object>(s1: Shape, s2: Shape, h1: Handle<T>, h2: Handle<T>)
    requires
        grows_view::<T>(s1, s2),
        (h1.id as int) < T::store_view(s1).len(),
        T::store_view(s1)[h1.id as int] == h1.obj@,
        h1.id as int == first_index_of(T::store_view(s1), h1.obj@),
        (h2.id as int) < T::store_view(s2).len(),
        T::store_view(s2)[h2.id as int] == h2.obj@,
        h2.id as int == first_index_of(T::store_view(s2), h2.obj@),
        h1.obj@ == h2.obj@,
    ensures
        h1.id == h2.id,
{
    assert(T::store_view(s1).contains(h1.obj@));
    lemma_first_index_grows(T::store_view(s1), T::store_view(s2), h1.obj@);
}


/// Handle identity: within one duplicate-free store, two resolving handles
/// name the same slot exactly when they hold the same content.
pub proof fn lemma_handle_identity<T: Object>(s: Shape, h1: Handle<T>, h2: Handle<T>)
    requires
        crate::store::uniq(T::store_view(s)),
        (h1.id as int) < T::store_view(s).len(),
        T::store_view(s)[h1.id as int] == h1.obj@,
        (h2.id as int) < T::store_view(s).len(),
        T::store_view(s)[h2.id as int] == h2.obj@,
    ensures
        h1.id == h2.id <==> h1.obj@ == h2.obj@,
{
    if h1.obj@ == h2.obj@ && h1.id != h2.id {
        if h1.id < h2.id {
            assert(T::store_view(s)[h1.id as int] != T::store_view(s)[h2.id as int]);
        } else {
            assert(T::store_view(s)[h2.id as int] != T::store_view(s)[h1.id as int]);
        }
    }
}

/// One kind's collection only grows with the store.
pub open spec fn grows_view<T: Object>(s1: Shape, s2: Shape) -> bool {
    crate::store::grows_seq(T::store_view(s1), T::store_view(s2))
}

impl Shape {
    /// Merges an object into the store through the recursive merge
    /// protocol: constituents first, then the object itself.
    pub fn merge<T: Object>(&mut self, object: T) -> (r: ValidationResult<T>)
        requires
            old(self).wf(),
        ensures
            final(self).wf(),
            shape_grows(*old(self), *final(self)),
            r is Ok <==> object.can_merge(),
            r matches Ok(h) ==> {
                &&& h.obj@ == object.canon_view(*final(self))
                &&& (h.id as int) < T::store_view(*final(self)).len()
                &&& T::store_view(*final(self))[h.id as int] == h.obj@
                &&& h.id as int == first_index_of(T::store_view(*final(self)), h.obj@)
                &&& h.obj.is_canonical_in(*final(self))
            },
            object.is_canonical_in(*old(self)) ==> r is Ok && *final(self) == *old(self),
    {
        object.merge_into(Option::None, self)
    }

    /// Inserts an object into the store through the same protocol; offered
    /// separately because call sites distinguish inserting a freshly built
    /// object from re-merging an existing one.
    pub fn insert<T: Object>(&mut self, object: T) -> (r: ValidationResult<T>)
        requires
            old(self).wf(),
        ensures
            final(self).wf(),
            shape_grows(*old(self), *final(self)),
            r is Ok <==> object.can_merge(),
            r matches Ok(h) ==> {
                &&& h.obj@ == object.canon_view(*final(self))
                &&& (h.id as int) < T::store_view(*final(self)).len()
                &&& T::store_view(*final(self))[h.id as int] == h.obj@
                &&& h.id as int == first_index_of(T::store_view(*final(self)), h.obj@)
                &&& h.obj.is_canonical_in(*final(self))
            },
            object.is_canonical_in(*old(self)) ==> r is Ok && *final(self) == *old(self),
    {
        object.merge_into(Option::None, self)
    }
}

} // verus!
