//! The transform propagator: rebuilds an object graph under an affine
//! transform, re-inserting every transformed object through a fresh store
//! so that transformed objects that coincide are deduplicated again rather
//! than merely copied.

use vstd::prelude::*;

use crate::geometry::{Curve, TransformObject};
use crate::math::{Color, Transform, Triangle};
use crate::shape::{shape_grows, Shape};
use crate::store::{
    first_index_of, lemma_first_index_grows, lemma_store_insert_grows, lemma_store_insert_uniq,
    Handle, LocalForm,
};
use crate::topology::{
    handle_cycle_v, lf_cycle_v, Cycle, CyclesInFace, Edge, EdgeEnds, EdgeVertices, Face, FaceBRep,
    FaceV, LfCycleV, Vertex,
};

verus! {

/// Whether an edge's geometry is small enough to transform.
pub open spec fn edge_bounded(e: LocalForm<Edge, Edge>) -> bool {
    &&& e.canonical.obj.curve.canonical.obj.bounded()
    &&& match e.canonical.obj.vertices {
        EdgeEnds::Closed => true,
        EdgeEnds::Ends(vv) => vv.a.canonical.obj.point.canonical.obj.bounded()
            && vv.b.canonical.obj.point.canonical.obj.bounded(),
    }
}

/// Whether the transform keeps an edge's two bounding vertices apart.
/// A transform that collapses them is degenerate for that edge.
pub open spec fn edge_nondegenerate(e: LocalForm<Edge, Edge>, t: Transform) -> bool {
    match e.canonical.obj.vertices {
        EdgeEnds::Closed => true,
        EdgeEnds::Ends(vv) => t.spec_transform_point(vv.a.canonical.obj.point.canonical.obj)
            != t.spec_transform_point(vv.b.canonical.obj.point.canonical.obj),
    }
}

/// Whether a set of cycles can be rebuilt under the transform: geometry
/// bounded, no edge collapsed, no cycle empty.
pub open spec fn cifv_transformable(cs: Seq<LfCycleV>, t: Transform) -> bool {
    forall|i: int|
        0 <= i < cs.len() ==> {
            let c = #[trigger] cs[i];
            &&& c.canonical.edges.len() > 0
            &&& forall|j: int|
                0 <= j < c.local.len() ==> edge_bounded(#[trigger] c.local[j])
                    && edge_nondegenerate(c.local[j], t)
            &&& forall|j: int|
                0 <= j < c.canonical.edges.len() ==> edge_bounded(#[trigger] c.canonical.edges[j])
                    && edge_nondegenerate(c.canonical.edges[j], t)
        }
}

/// How a transformed edge relates to its source, by content: the curve and
/// the vertices' points transformed, the curve parameters kept.
pub open spec fn edge_content_transformed(src: Edge, dst: Edge, t: Transform) -> bool {
    &&& dst.curve.canonical.obj == src.curve.canonical.obj.spec_transform(t)
    &&& match (src.vertices, dst.vertices) {
        (EdgeEnds::Closed, EdgeEnds::Closed) => true,
        (EdgeEnds::Ends(sv), EdgeEnds::Ends(dv)) => {
            &&& dv.a.local == sv.a.local
            &&& dv.b.local == sv.b.local
            &&& dv.a.canonical.obj.point.canonical.obj == t.spec_transform_point(
                sv.a.canonical.obj.point.canonical.obj,
            )
            &&& dv.b.canonical.obj.point.canonical.obj == t.spec_transform_point(
                sv.b.canonical.obj.point.canonical.obj,
            )
        },
        _ => false,
    }
}

/// How a transformed local edge form relates to its source: the local curve
/// parameterization is kept as it was, while the canonical curve and the
/// vertices are transformed; local and canonical form share one canonical
/// curve handle.
pub open spec fn local_edge_transformed(
    src: LocalForm<Edge, Edge>,
    dst: LocalForm<Edge, Edge>,
    t: Transform,
) -> bool {
    &&& dst.local.curve.local == src.local.curve.local
    &&& dst.local.curve.canonical == dst.canonical.obj.curve.canonical
    &&& dst.local.vertices == dst.canonical.obj.vertices
    &&& dst.canonical.obj.curve.local == dst.canonical.obj.curve.canonical.obj
    &&& edge_content_transformed(src.canonical.obj, dst.canonical.obj, t)
}

/// How a transformed canonical edge form relates to its source: the local
/// form is the canonical value itself.
pub open spec fn canonical_edge_transformed(
    src: LocalForm<Edge, Edge>,
    dst: LocalForm<Edge, Edge>,
    t: Transform,
) -> bool {
    &&& dst.local == dst.canonical.obj
    &&& dst.canonical.obj.curve.local == dst.canonical.obj.curve.canonical.obj
    &&& edge_content_transformed(src.canonical.obj, dst.canonical.obj, t)
}

/// How a transformed set of cycles relates to its source, cycle by cycle
/// and edge by edge.
pub open spec fn cyclesv_transformed(src: Seq<LfCycleV>, dst: Seq<LfCycleV>, t: Transform) -> bool {
    &&& dst.len() == src.len()
    &&& forall|i: int|
        0 <= i < src.len() ==> {
            let s = #[trigger] src[i];
            let d = #[trigger] dst[i];
            &&& d.local.len() == s.local.len()
            &&& d.canonical.edges.len() == s.canonical.edges.len()
            &&& forall|j: int|
                0 <= j < s.local.len() ==> local_edge_transformed(
                    #[trigger] s.local[j],
                    d.local[j],
                    t,
                )
            &&& forall|j: int|
                0 <= j < s.canonical.edges.len() ==> canonical_edge_transformed(
                    #[trigger] s.canonical.edges[j],
                    d.canonical.edges[j],
                    t,
                )
        }
}

/// Whether position `(i, j)` names an edge of the result: one of the local
/// edge forms when `canonical_pass` is false, one of the canonical cycles'
/// edges otherwise.
pub open spec fn result_pos(r: Seq<LfCycleV>, i: int, j: int, canonical_pass: bool) -> bool {
    0 <= i < r.len() && if canonical_pass {
        0 <= j < r[i].canonical.edges.len()
    } else {
        0 <= j < r[i].local.len()
    }
}

/// The canonical curve handle at one position of the result.
pub open spec fn result_curve_handle(
    r: Seq<LfCycleV>,
    i: int,
    j: int,
    canonical_pass: bool,
) -> Handle<Curve> {
    if canonical_pass {
        r[i].canonical.edges[j].canonical.obj.curve.canonical
    } else {
        r[i].local[j].canonical.obj.curve.canonical
    }
}

/// Transformed curves that coincide share one canonical handle, and so do
/// transformed cycles: the deduplication that re-insertion through a fresh
/// store restores.
pub open spec fn result_deduplicated(r: Seq<LfCycleV>) -> bool {
    &&& forall|i1: int, j1: int, b1: bool, i2: int, j2: int, b2: bool|
        result_pos(r, i1, j1, b1) && result_pos(r, i2, j2, b2) && (#[trigger] result_curve_handle(
            r,
            i1,
            j1,
            b1,
        )).obj == (#[trigger] result_curve_handle(r, i2, j2, b2)).obj ==> result_curve_handle(
            r,
            i1,
            j1,
            b1,
        ) == result_curve_handle(r, i2, j2, b2)
    &&& forall|i1: int, i2: int|
        0 <= i1 < r.len() && 0 <= i2 < r.len() && (#[trigger] r[i1].canonical).edges == (
        #[trigger] r[i2].canonical).edges ==> r[i1].canonical == r[i2].canonical
}

/// A curve handle pinned to a store: its slot is the first slot holding
/// its curve, so equal curves get equal handles.
pub open spec fn curve_handle_pinned(h: Handle<Curve>, s: Shape) -> bool {
    s.curves_view().contains(h.obj) && h.id as int == first_index_of(s.curves_view(), h.obj)
}

/// A cycle handle pinned to a store, by content.
pub open spec fn cycle_handle_pinned(h: Handle<Cycle>, s: Shape) -> bool {
    s.cycles_view().contains(h.obj@) && h.id as int == first_index_of(s.cycles_view(), h.obj@)
}

/// All canonical curve handles of a transformed edge list are pinned.
pub open spec fn edges_pinned(out: Seq<LocalForm<Edge, Edge>>, s: Shape) -> bool {
    forall|j: int|
        0 <= j < out.len() ==> curve_handle_pinned(
            (#[trigger] out[j]).canonical.obj.curve.canonical,
            s,
        ) && curve_handle_pinned(out[j].local.curve.canonical, s)
}

/// All canonical curve and cycle handles of the partial result are pinned.
pub open spec fn result_pinned(out: Seq<LocalForm<Cycle, Cycle>>, s: Shape) -> bool {
    &&& forall|i: int|
        0 <= i < out.len() ==> cycle_handle_pinned((#[trigger] out[i]).canonical, s)
    &&& forall|i: int| 0 <= i < out.len() ==> edges_pinned((#[trigger] out[i]).local.edges@, s)
    &&& forall|i: int|
        0 <= i < out.len() ==> edges_pinned((#[trigger] out[i]).canonical.obj.edges@, s)
}

/// Pinned handles stay pinned as the store grows.
proof fn lemma_curve_pinned_grows(h: Handle<Curve>, s1: Shape, s2: Shape)
    requires
        shape_grows(s1, s2),
        curve_handle_pinned(h, s1),
    ensures
        curve_handle_pinned(h, s2),
{
    lemma_first_index_grows(s1.curves_view(), s2.curves_view(), h.obj);
}

/// Pinned cycle handles stay pinned as the store grows.
proof fn lemma_cycle_pinned_grows(h: Handle<Cycle>, s1: Shape, s2: Shape)
    requires
        shape_grows(s1, s2),
        cycle_handle_pinned(h, s1),
    ensures
        cycle_handle_pinned(h, s2),
{
    lemma_first_index_grows(s1.cycles_view(), s2.cycles_view(), h.obj@);
}

/// Transforms one list of edge forms, merging every transformed curve,
/// vertex and edge into the rebuilding store. With `keep_local` the local
/// curve parameterizations are carried over unchanged; without it the
/// canonical values stand in for the local forms.
fn transform_edges(
    edges: &Vec<LocalForm<Edge, Edge>>,
    transform: &Transform,
    keep_local: bool,
    tmp: &mut Shape,
) -> (r: Vec<LocalForm<Edge, Edge>>)
    requires
        old(tmp).wf(),
        transform.bounded(),
        forall|j: int|
            0 <= j < edges@.len() ==> edge_bounded(#[trigger] edges@[j]) && edge_nondegenerate(
                edges@[j],
                *transform,
            ),
    ensures
        final(tmp).wf(),
        shape_grows(*old(tmp), *final(tmp)),
        r@.len() == edges@.len(),
        keep_local ==> forall|j: int|
            0 <= j < edges@.len() ==> local_edge_transformed(
                #[trigger] edges@[j],
                r@[j],
                *transform,
            ),
        !keep_local ==> forall|j: int|
            0 <= j < edges@.len() ==> canonical_edge_transformed(
                #[trigger] edges@[j],
                r@[j],
                *transform,
            ),
        edges_pinned(r@, *final(tmp)),
{
    let mut out: Vec<LocalForm<Edge, Edge>> = Vec::new();
    let n = edges.len();
    let mut j: usize = 0;
    while j < n
        invariant
            j <= n,
            n == edges@.len(),
            old(tmp).wf(),
            tmp.wf(),
            transform.bounded(),
            shape_grows(*old(tmp), *tmp),
            forall|l: int|
                0 <= l < edges@.len() ==> edge_bounded(#[trigger] edges@[l]) && edge_nondegenerate(
                    edges@[l],
                    *transform,
                ),
            out@.len() == j as int,
            keep_local ==> forall|l: int|
                0 <= l < j as int ==> local_edge_transformed(
                    #[trigger] edges@[l],
                    out@[l],
                    *transform,
                ),
            !keep_local ==> forall|l: int|
                0 <= l < j as int ==> canonical_edge_transformed(
                    #[trigger] edges@[l],
                    out@[l],
                    *transform,
                ),
            edges_pinned(out@, *tmp),
        decreases n - j,
    {
        let ghost s0 = *tmp;
        let e = edges[j];
        let cv = e.canonical.obj.curve.canonical.obj.transform(transform);
        let ch = tmp.get_handle_or_insert_curve(cv);
        let ghost s_c = *tmp;
        proof {
            lemma_store_insert_uniq(s0.curves_view(), cv);
            lemma_store_insert_grows(s0.curves_view(), cv);
            assert(curve_handle_pinned(ch, s_c));
        }
        let vertices = match e.canonical.obj.vertices {
            EdgeEnds::Closed => EdgeEnds::Closed,
            EdgeEnds::Ends(vv) => {
                let pa = transform.transform_point(&vv.a.canonical.obj.point.canonical.obj);
                let pha = tmp.get_handle_or_insert_point(pa);
                let va = tmp.get_handle_or_insert_vertex(Vertex::new(pha));
                let pb = transform.transform_point(&vv.b.canonical.obj.point.canonical.obj);
                let phb = tmp.get_handle_or_insert_point(pb);
                let vb = tmp.get_handle_or_insert_vertex(Vertex::new(phb));
                EdgeEnds::Ends(
                    EdgeVertices {
                        a: LocalForm::new(vv.a.local, va),
                        b: LocalForm::new(vv.b.local, vb),
                    },
                )
            },
        };
        let ghost s1 = *tmp;
        let edge_value = Edge::new(ch, vertices);
        let eh = match tmp.get_handle_or_insert_edge(edge_value) {
            Result::Ok(h) => h,
            Result::Err(_) => {
                proof {
                    assert(crate::topology::edge_ends_distinct(edge_value));
                    assert(false);
                }
                return out;
            },
        };
        proof {
            lemma_store_insert_uniq(s1.edges_view(), edge_value);
            lemma_store_insert_grows(s1.edges_view(), edge_value);
        }
        let lf = if keep_local {
            let edge_local = Edge {
                curve: LocalForm::new(e.local.curve.local, ch),
                vertices,
            };
            LocalForm::new(edge_local, eh)
        } else {
            LocalForm::canonical_only(eh)
        };
        out.push(lf);
        proof {
            assert(curve_handle_pinned(ch, *tmp)) by {
                lemma_curve_pinned_grows(ch, s_c, *tmp);
            }
            assert forall|l: int| 0 <= l < j as int implies edges_pinned_one(out@[l], *tmp) by {
                lemma_curve_pinned_grows(out@[l].canonical.obj.curve.canonical, s0, *tmp);
                lemma_curve_pinned_grows(out@[l].local.curve.canonical, s0, *tmp);
            }
            assert(edges_pinned(out@, *tmp));
        }
        j += 1;
    }
    out
}

/// Both curve handles of one transformed edge form are pinned.
pub open spec fn edges_pinned_one(lf: LocalForm<Edge, Edge>, s: Shape) -> bool {
    curve_handle_pinned(lf.canonical.obj.curve.canonical, s) && curve_handle_pinned(
        lf.local.curve.canonical,
        s,
    )
}


/// Rebuilds a set of cycles under the transform, routing every transformed
/// sub-object through one fresh store: transformed objects that coincide
/// come out deduplicated, sharing a single canonical handle.
pub fn transform_cycles(cycles: &CyclesInFace, transform: &Transform) -> (r: CyclesInFace)
    requires
        transform.bounded(),
        cifv_transformable(cycles@, *transform),
    ensures
        cyclesv_transformed(cycles@, r@, *transform),
        result_deduplicated(r@),
{
    let mut tmp = Shape::new();
    let mut out: Vec<LocalForm<Cycle, Cycle>> = Vec::new();
    let n = cycles.cycles.len();
    let mut i: usize = 0;
    while i < n
        invariant
            i <= n,
            n == cycles.cycles@.len(),
            tmp.wf(),
            transform.bounded(),
            cifv_transformable(cycles@, *transform),
            cycles@.len() == n,
            out@.len() == i as int,
            forall|l: int| 0 <= l < n as int ==> #[trigger] cycles@[l] == lf_cycle_v(
                cycles.cycles@[l],
            ),
            forall|l: int|
                0 <= l < i as int ==> {
                    let s = #[trigger] cycles@[l];
                    let d = lf_cycle_v(#[trigger] out@[l]);
                    &&& d.local.len() == s.local.len()
                    &&& d.canonical.edges.len() == s.canonical.edges.len()
                    &&& forall|j: int|
                        0 <= j < s.local.len() ==> local_edge_transformed(
                            #[trigger] s.local[j],
                            d.local[j],
                            *transform,
                        )
                    &&& forall|j: int|
                        0 <= j < s.canonical.edges.len() ==> canonical_edge_transformed(
                            #[trigger] s.canonical.edges[j],
                            d.canonical.edges[j],
                            *transform,
                        )
                },
            result_pinned(out@, tmp),
        decreases n - i,
    {
        let ghost s0 = tmp;
        proof {
            assert(cycles@[i as int] == lf_cycle_v(cycles.cycles@[i as int]));
            assert forall|j: int|
                0 <= j < cycles.cycles@[i as int].local.edges@.len() implies edge_bounded(
                #[trigger] cycles.cycles@[i as int].local.edges@[j],
            ) && edge_nondegenerate(cycles.cycles@[i as int].local.edges@[j], *transform) by {
                assert(cycles@[i as int].local[j] == cycles.cycles@[i as int].local.edges@[j]);
            }
            assert forall|j: int|
                0 <= j < cycles.cycles@[i as int].canonical.obj.edges@.len() implies edge_bounded(
                #[trigger] cycles.cycles@[i as int].canonical.obj.edges@[j],
            ) && edge_nondegenerate(
                cycles.cycles@[i as int].canonical.obj.edges@[j],
                *transform,
            ) by {
                assert(cycles@[i as int].canonical.edges[j]
                    == cycles.cycles@[i as int].canonical.obj.edges@[j]);
            }
        }
        let edges_local = transform_edges(
            &cycles.cycles[i].local.edges,
            transform,
            true,
            &mut tmp,
        );
        let ghost s1 = tmp;
        let edges_canonical = transform_edges(
            &cycles.cycles[i].canonical.obj.edges,
            transform,
            false,
            &mut tmp,
        );
        let ghost s2 = tmp;
        let cycle_local = Cycle { edges: edges_local };
        let cycle_value = Cycle { edges: edges_canonical };
        let chh = match tmp.get_handle_or_insert_cycle(cycle_value) {
            Result::Ok(h) => h,
            Result::Err(_) => {
                proof {
                    assert(false);
                }
                return (CyclesInFace { cycles: out });
            },
        };
        proof {
            lemma_store_insert_uniq(s2.cycles_view(), chh.obj@);
            lemma_store_insert_grows(s2.cycles_view(), chh.obj@);
        }
        out.push(LocalForm::new(cycle_local, chh));
        proof {
            assert(cycle_handle_pinned(chh, tmp));
            assert(shape_grows(s0, tmp));
            assert forall|l: int| 0 <= l < i as int implies cycle_handle_pinned(
                (#[trigger] out@[l]).canonical,
                tmp,
            ) && edges_pinned(out@[l].local.edges@, tmp) && edges_pinned(
                out@[l].canonical.obj.edges@,
                tmp,
            ) by {
                lemma_cycle_pinned_grows(out@[l].canonical, s0, tmp);
                assert forall|j: int| 0 <= j < out@[l].local.edges@.len() implies curve_handle_pinned(
                    (#[trigger] out@[l].local.edges@[j]).canonical.obj.curve.canonical,
                    tmp,
                ) && curve_handle_pinned(out@[l].local.edges@[j].local.curve.canonical, tmp) by {
                    lemma_curve_pinned_grows(
                        out@[l].local.edges@[j].canonical.obj.curve.canonical,
                        s0,
                        tmp,
                    );
                    lemma_curve_pinned_grows(out@[l].local.edges@[j].local.curve.canonical, s0, tmp);
                }
                assert forall|j: int|
                    0 <= j < out@[l].canonical.obj.edges@.len() implies curve_handle_pinned(
                    (#[trigger] out@[l].canonical.obj.edges@[j]).canonical.obj.curve.canonical,
                    tmp,
                ) && curve_handle_pinned(
                    out@[l].canonical.obj.edges@[j].local.curve.canonical,
                    tmp,
                ) by {
                    lemma_curve_pinned_grows(
                        out@[l].canonical.obj.edges@[j].canonical.obj.curve.canonical,
                        s0,
                        tmp,
                    );
                    lemma_curve_pinned_grows(
                        out@[l].canonical.obj.edges@[j].local.curve.canonical,
                        s0,
                        tmp,
                    );
                }
            }
            assert forall|j: int| 0 <= j < edges_local@.len() implies edges_pinned_one(
                #[trigger] edges_local@[j],
                tmp,
            ) by {
                lemma_curve_pinned_grows(edges_local@[j].canonical.obj.curve.canonical, s1, tmp);
                lemma_curve_pinned_grows(edges_local@[j].local.curve.canonical, s1, tmp);
            }
            assert forall|j: int| 0 <= j < edges_canonical@.len() implies edges_pinned_one(
                #[trigger] edges_canonical@[j],
                tmp,
            ) by {
                lemma_curve_pinned_grows(
                    edges_canonical@[j].canonical.obj.curve.canonical,
                    s2,
                    tmp,
                );
                lemma_curve_pinned_grows(edges_canonical@[j].local.curve.canonical, s2, tmp);
            }
            assert(edges_pinned(out@[i as int].local.edges@, tmp));
            assert(edges_pinned(out@[i as int].canonical.obj.edges@, tmp));
            assert(result_pinned(out@, tmp));
        }
        i += 1;
    }
    let r = CyclesInFace { cycles: out };
    proof {
        assert(r@.len() == cycles@.len());
        assert forall|l: int| 0 <= l < n as int implies #[trigger] r@[l] == lf_cycle_v(out@[l]) by {
        }
        assert(cyclesv_transformed(cycles@, r@, *transform));
        assert forall|i1: int, j1: int, b1: bool, i2: int, j2: int, b2: bool|
            result_pos(r@, i1, j1, b1) && result_pos(r@, i2, j2, b2) && (
            #[trigger] result_curve_handle(r@, i1, j1, b1)).obj == (#[trigger] result_curve_handle(
                r@,
                i2,
                j2,
                b2,
            )).obj implies result_curve_handle(r@, i1, j1, b1) == result_curve_handle(
            r@,
            i2,
            j2,
            b2,
        ) by {
            assert(curve_handle_pinned(result_curve_handle(r@, i1, j1, b1), tmp));
            assert(curve_handle_pinned(result_curve_handle(r@, i2, j2, b2), tmp));
        }
        assert forall|i1: int, i2: int|
            0 <= i1 < r@.len() && 0 <= i2 < r@.len() && (#[trigger] r@[i1].canonical).edges == (
            #[trigger] r@[i2].canonical).edges implies r@[i1].canonical == r@[i2].canonical by {
            assert(cycle_handle_pinned(out@[i1].canonical, tmp));
            assert(cycle_handle_pinned(out@[i2].canonical, tmp));
            assert(handle_cycle_v(out@[i1].canonical) == r@[i1].canonical);
            assert(handle_cycle_v(out@[i2].canonical) == r@[i2].canonical);
        }
    }
    r
}



/// Whether a face can be rebuilt under the transform.
pub open spec fn face_transformable(v: FaceV, t: Transform) -> bool {
    match v {
        FaceV::BRep { surface, exteriors, interiors, color } => {
            &&& surface.obj.bounded()
            &&& cifv_transformable(exteriors, t)
            &&& cifv_transformable(interiors, t)
        },
        FaceV::Triangles { triangles } => forall|i: int|
            0 <= i < triangles.len() ==> (#[trigger] triangles[i]).0.bounded(),
    }
}

/// How a transformed face relates to its source: surface and cycles
/// transformed and re-deduplicated, color kept; a bare triangle mesh is
/// transformed pointwise, since it carries no shareable structure.
pub open spec fn face_transformed(src: FaceV, dst: FaceV, t: Transform) -> bool {
    match (src, dst) {
        (
            FaceV::BRep { surface: ss, exteriors: se, interiors: si, color: sc },
            FaceV::BRep { surface: ds, exteriors: de, interiors: di, color: dc },
        ) => {
            &&& ds.obj == ss.obj.spec_transform(t)
            &&& dc == sc
            &&& cyclesv_transformed(se, de, t)
            &&& result_deduplicated(de)
            &&& cyclesv_transformed(si, di, t)
            &&& result_deduplicated(di)
        },
        (FaceV::Triangles { triangles: s }, FaceV::Triangles { triangles: d }) => {
            &&& d.len() == s.len()
            &&& forall|i: int|
                0 <= i < s.len() ==> (#[trigger] d[i]).0 == t.spec_transform_triangle(s[i].0)
                    && d[i].1 == s[i].1
        },
        _ => false,
    }
}

/// Transforms the whole shape: every face is rebuilt with its geometry
/// transformed, and each face's objects are re-inserted through a fresh
/// store so that coinciding transformed objects are shared again.
pub fn transform(shape: &Shape, trans: &Transform) -> (r: Vec<Face>)
    requires
        shape.wf(),
        trans.bounded(),
        forall|i: int|
            0 <= i < shape.faces_view().len() ==> face_transformable(
                #[trigger] shape.faces_view()[i],
                *trans,
            ),
    ensures
        r@.len() == shape.faces_view().len(),
        forall|i: int|
            0 <= i < r@.len() ==> face_transformed(
                shape.faces_view()[i],
                (#[trigger] r@[i])@,
                *trans,
            ),
{
    let mut target: Vec<Face> = Vec::new();
    let faces = shape.faces();
    let n = faces.len();
    let mut i: usize = 0;
    while i < n
        invariant
            i <= n,
            n == faces@.len(),
            shape.wf(),
            trans.bounded(),
            n == shape.faces_view().len(),
            forall|l: int|
                0 <= l < n as int ==> (#[trigger] faces@[l])@ == shape.faces_view()[l],
            forall|l: int|
                0 <= l < n as int ==> face_transformable(
                    #[trigger] shape.faces_view()[l],
                    *trans,
                ),
            target@.len() == i as int,
            forall|l: int|
                0 <= l < i as int ==> face_transformed(
                    shape.faces_view()[l],
                    (#[trigger] target@[l])@,
                    *trans,
                ),
        decreases n - i,
    {
        let face = match &faces[i] {
            Face::Face(brep) => {
                let mut tmp = Shape::new();
                let surface = brep.surface.obj.transform(trans);
                let sh = tmp.get_handle_or_insert_surface(surface);
                let exteriors = transform_cycles(&brep.exteriors, trans);
                let interiors = transform_cycles(&brep.interiors, trans);
                Face::Face(
                    FaceBRep { surface: sh, exteriors, interiors, color: brep.color },
                )
            },
            Face::Triangles(triangles) => {
                proof {
                    assert(faces@[i as int]@ == shape.faces_view()[i as int]);
                    assert(face_transformable(shape.faces_view()[i as int], *trans));
                    assert(shape.faces_view()[i as int] == (FaceV::Triangles {
                        triangles: triangles@,
                    }));
                    assert forall|l: int|
                        0 <= l < triangles@.len() implies (
                    #[trigger] triangles@[l]).0.bounded() by {
                        match shape.faces_view()[i as int] {
                            FaceV::Triangles { triangles: tv } => {
                                assert(tv == triangles@);
                                assert(tv[l].0.bounded());
                            },
                            _ => {},
                        }
                    }
                }
                let mut out: Vec<(Triangle, Color)> = Vec::new();
                let m = triangles.len();
                let mut j: usize = 0;
                while j < m
                    invariant
                        j <= m,
                        m == triangles@.len(),
                        trans.bounded(),
                        forall|l: int|
                            0 <= l < m as int ==> (#[trigger] triangles@[l]).0.bounded(),
                        out@.len() == j as int,
                        forall|l: int|
                            0 <= l < j as int ==> (#[trigger] out@[l]).0
                                == trans.spec_transform_triangle(triangles@[l].0) && out@[l].1
                                == triangles@[l].1,
                    decreases m - j,
                {
                    let tri = trans.transform_triangle(&triangles[j].0);
                    out.push((tri, triangles[j].1));
                    j += 1;
                }
                Face::Triangles(out)
            },
        };
        target.push(face);
        i += 1;
    }
    target
}


} // verus!
