//! Deduplicated mesh vertices: every distinct vertex gets one index, and
//! asking again for a vertex hands back the index it already has.

use vstd::prelude::*;

use crate::math::Point3;
use crate::store::{
    first_index_of, lemma_first_index_from_scan, lemma_not_contains_from_scan,
    lemma_store_insert_uniq, store_insert, store_insert_id, uniq,
};

verus! {

/// A deduplicated list of mesh vertices, indexable for triangle lists.
pub struct Vertices {
    vertices: Vec<Point3>,
}

impl View for Vertices {
    type V = Seq<Point3>;

    closed spec fn view(&self) -> Seq<Point3> {
        self.vertices@
    }
}

impl Vertices {
    /// No vertex is listed twice.
    pub closed spec fn wf(self) -> bool {
        uniq(self.vertices@)
    }

    /// An empty vertex list.
    pub fn new() -> (r: Self)
        ensures
            r.wf(),
            r@ == Seq::<Point3>::empty(),
    {
        Vertices { vertices: Vec::new() }
    }

    /// The vertices, in index order.
    pub fn iter(&self) -> (r: Vec<Point3>)
        ensures
            r@ == self@,
    {
        let mut r: Vec<Point3> = Vec::new();
        let mut i: usize = 0;
        let n = self.vertices.len();
        while i < n
            invariant
                i <= n,
                n == self.vertices@.len(),
                r@.len() == i as int,
                forall|j: int| 0 <= j < i as int ==> r@[j] == self.vertices@[j],
            decreases n - i,
        {
            r.push(self.vertices[i]);
            i += 1;
        }
        proof {
            assert(r@ =~= self.vertices@);
        }
        r
    }

    /// The index of the vertex: the index it already has when it is known,
    /// else the next free index, under which it is recorded.
    pub fn index_for_vertex(&mut self, vertex: Point3) -> (r: u32)
        requires
            old(self).wf(),
            old(self)@.len() < 0xffff_ffff,
        ensures
            final(self).wf(),
            final(self)@ == store_insert(old(self)@, vertex),
            r as int == store_insert_id(old(self)@, vertex),
    {
        let n = self.vertices.len();
        let mut i: usize = 0;
        while i < n
            invariant
                i <= n,
                n == self.vertices@.len(),
                n < 0xffff_ffff,
                *self == *old(self),
                old(self).wf(),
                forall|j: int| 0 <= j < i as int ==> self.vertices@[j] != vertex,
            decreases n - i,
        {
            if self.vertices[i] == vertex {
                proof {
                    lemma_first_index_from_scan(self.vertices@, vertex, i as int);
                }
                return i as u32;
            }
            i += 1;
        }
        proof {
            lemma_not_contains_from_scan(self.vertices@, vertex);
            lemma_store_insert_uniq(self.vertices@, vertex);
        }
        let index = self.vertices.len() as u32;
        self.vertices.push(vertex);
        index
    }
}

impl Default for Vertices {
    /// An empty vertex list.
    fn default() -> (r: Self)
        ensures
            r.wf(),
            r@ == Seq::<Point3>::empty(),
    {
        Vertices::new()
    }
}

} // verus!
