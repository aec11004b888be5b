//! Updating sketches: adding regions and replacing one region by others,
//! with every region routed through the store's insert-or-reuse.

use vstd::prelude::*;

use crate::shape::{shape_grows, Shape};
use crate::store::{
    first_index_of, lemma_first_index_grows, lemma_store_insert_grows, lemma_store_insert_uniq,
    Handle,
};
use crate::topology::{
    clone_region_handle, handle_region_v, region_eq, Region, RegionV, Sketch,
};

verus! {

/// Operations that update a sketch. Each returns the updated sketch; the
/// regions themselves are inserted or reused through the store.
pub trait UpdateSketch: Sized {
    /// The sketch's regions: each handle's slot and content.
    spec fn regions_v(self) -> Seq<(u64, RegionV)>;

    /// Adds regions to the sketch: each is inserted or reused through the
    /// store, and the new sketch holds the old regions followed by the new
    /// canonical handles.
    fn add_regions(&self, regions: Vec<Region>, core: &mut Shape) -> (r: Self)
        requires
            old(core).wf(),
        ensures
            final(core).wf(),
            shape_grows(*old(core), *final(core)),
            r.regions_v().len() == self.regions_v().len() + regions@.len(),
            forall|i: int|
                0 <= i < self.regions_v().len() ==> #[trigger] r.regions_v()[i]
                    == self.regions_v()[i],
            forall|i: int|
                0 <= i < regions@.len() ==> (#[trigger] r.regions_v()[self.regions_v().len()
                    + i]).1 == regions@[i]@ && (r.regions_v()[self.regions_v().len() + i]).0
                    as int == first_index_of(final(core).regions_view(), regions@[i]@),
    ;

    /// Replaces the region named by `handle` with the given replacements,
    /// inserted through the store; the other regions keep their places.
    ///
    /// Asking to replace a region the sketch does not hold is a caller
    /// error, so the handle is required to be present.
    fn update_region(
        &self,
        handle: &Handle<Region>,
        replacements: Vec<Region>,
        core: &mut Shape,
    ) -> (r: Self)
        requires
            old(core).wf(),
            self.regions_v().contains(handle_region_v(*handle)),
        ensures
            final(core).wf(),
            shape_grows(*old(core), *final(core)),
            ({
                let k = first_index_of(self.regions_v(), handle_region_v(*handle));
                &&& r.regions_v().len() == self.regions_v().len() + replacements@.len() - 1
                &&& forall|i: int| 0 <= i < k ==> #[trigger] r.regions_v()[i] == self.regions_v()[i]
                &&& forall|i: int|
                    0 <= i < replacements@.len() ==> (#[trigger] r.regions_v()[k + i]).1
                        == replacements@[i]@ && (r.regions_v()[k + i]).0 as int == first_index_of(
                        final(core).regions_view(),
                        replacements@[i]@,
                    )
                &&& forall|i: int|
                    k < i < self.regions_v().len() ==> #[trigger] r.regions_v()[i
                        + replacements@.len() - 1] == self.regions_v()[i]
            }),
    ;
}

impl UpdateSketch for Sketch {
    open spec fn regions_v(self) -> Seq<(u64, RegionV)> {
        self@
    }

    fn add_regions(&self, regions: Vec<Region>, core: &mut Shape) -> (r: Self) {
        let mut out: Vec<Handle<Region>> = Vec::new();
        let n = self.regions.len();
        let mut i: usize = 0;
        while i < n
            invariant
                i <= n,
                n == self.regions@.len(),
                out@.len() == i as int,
                forall|j: int|
                    0 <= j < i as int ==> handle_region_v(#[trigger] out@[j]) == handle_region_v(
                        self.regions@[j],
                    ),
            decreases n - i,
        {
            out.push(clone_region_handle(&self.regions[i]));
            i += 1;
        }
        let m = regions.len();
        let mut j: usize = 0;
        while j < m
            invariant
                j <= m,
                m == regions@.len(),
                core.wf(),
                old(core).wf(),
                shape_grows(*old(core), *core),
                out@.len() == n as int + j as int,
                n == self.regions@.len(),
                forall|l: int|
                    0 <= l < n as int ==> handle_region_v(#[trigger] out@[l]) == handle_region_v(
                        self.regions@[l],
                    ),
                forall|l: int|
                    0 <= l < j as int ==> (handle_region_v(#[trigger] out@[n as int + l])).1
                        == regions@[l]@,
                forall|l: int| #![trigger regions@[l]]
                    0 <= l < j as int ==> core.regions_view().contains(regions@[l]@)
                        && (handle_region_v(out@[n as int + l])).0 as int == first_index_of(
                        core.regions_view(),
                        regions@[l]@,
                    ),
            decreases m - j,
        {
            let ghost s_pre = *core;
            let region = crate::topology::clone_region(&regions[j]);
            let h = core.get_handle_or_insert_region(region);
            proof {
                lemma_store_insert_uniq(s_pre.regions_view(), regions@[j as int]@);
                lemma_store_insert_grows(s_pre.regions_view(), regions@[j as int]@);
                assert forall|l: int| #![trigger regions@[l]]
                    0 <= l < j as int implies core.regions_view().contains(regions@[l]@) && (
                handle_region_v(out@[n as int + l])).0 as int == first_index_of(
                    core.regions_view(),
                    regions@[l]@,
                ) by {
                    assert(s_pre.regions_view().contains(regions@[l]@));
                    lemma_first_index_grows(
                        s_pre.regions_view(),
                        core.regions_view(),
                        regions@[l]@,
                    );
                }
            }
            out.push(h);
            j += 1;
        }
        Sketch::new(out)
    }

    fn update_region(
        &self,
        handle: &Handle<Region>,
        replacements: Vec<Region>,
        core: &mut Shape,
    ) -> (r: Self) {
        let n = self.regions.len();
        let mut k: usize = 0;
        while k < n
            invariant
                k <= n,
                n == self.regions@.len(),
                *core == *old(core),
                old(core).wf(),
                self.regions_v().contains(handle_region_v(*handle)),
                forall|j: int|
                    0 <= j < k as int ==> handle_region_v(#[trigger] self.regions@[j])
                        != handle_region_v(*handle),
            decreases n - k,
        {
            if self.regions[k].id == handle.id && region_eq(&self.regions[k].obj, &handle.obj) {
                proof {
                    assert(self@[k as int] == handle_region_v(*handle));
                    crate::store::lemma_first_index_from_scan(
                        self.regions_v(),
                        handle_region_v(*handle),
                        k as int,
                    );
                }
                let mut out: Vec<Handle<Region>> = Vec::new();
                let mut i: usize = 0;
                while i < k
                    invariant
                        i <= k,
                        k < self.regions@.len(),
                        out@.len() == i as int,
                        forall|j: int|
                            0 <= j < i as int ==> handle_region_v(#[trigger] out@[j])
                                == handle_region_v(self.regions@[j]),
                    decreases k - i,
                {
                    out.push(clone_region_handle(&self.regions[i]));
                    i += 1;
                }
                let m = replacements.len();
                let mut j: usize = 0;
                while j < m
                    invariant
                        j <= m,
                        m == replacements@.len(),
                        k < self.regions@.len(),
                        core.wf(),
                        old(core).wf(),
                        shape_grows(*old(core), *core),
                        out@.len() == k as int + j as int,
                        forall|l: int|
                            0 <= l < k as int ==> handle_region_v(#[trigger] out@[l])
                                == handle_region_v(self.regions@[l]),
                        forall|l: int|
                            0 <= l < j as int ==> (handle_region_v(
                                #[trigger] out@[k as int + l],
                            )).1 == replacements@[l]@,
                        forall|l: int| #![trigger replacements@[l]]
                            0 <= l < j as int ==> core.regions_view().contains(replacements@[l]@)
                                && (handle_region_v(out@[k as int + l])).0 as int
                                == first_index_of(core.regions_view(), replacements@[l]@),
                    decreases m - j,
                {
                    let ghost s_pre = *core;
                    let region = crate::topology::clone_region(&replacements[j]);
                    let h = core.get_handle_or_insert_region(region);
                    proof {
                        lemma_store_insert_uniq(s_pre.regions_view(), replacements@[j as int]@);
                        lemma_store_insert_grows(s_pre.regions_view(), replacements@[j as int]@);
                        assert forall|l: int| #![trigger replacements@[l]]
                            0 <= l < j as int implies core.regions_view().contains(
                            replacements@[l]@,
                        ) && (handle_region_v(out@[k as int + l])).0 as int == first_index_of(
                            core.regions_view(),
                            replacements@[l]@,
                        ) by {
                            assert(s_pre.regions_view().contains(replacements@[l]@));
                            lemma_first_index_grows(
                                s_pre.regions_view(),
                                core.regions_view(),
                                replacements@[l]@,
                            );
                        }
                    }
                    out.push(h);
                    j += 1;
                }
                let mut i2: usize = k + 1;
                while i2 < n
                    invariant
                        k < i2 <= n,
                        n == self.regions@.len(),
                        out@.len() == i2 as int + m as int - 1,
                        m as int == replacements@.len(),
                        forall|l: int|
                            0 <= l < k as int ==> handle_region_v(#[trigger] out@[l])
                                == handle_region_v(self.regions@[l]),
                        forall|l: int|
                            0 <= l < m as int ==> (handle_region_v(
                                #[trigger] out@[k as int + l],
                            )).1 == replacements@[l]@,
                        forall|l: int| #![trigger replacements@[l]]
                            0 <= l < m as int ==> core.regions_view().contains(replacements@[l]@)
                                && (handle_region_v(out@[k as int + l])).0 as int
                                == first_index_of(core.regions_view(), replacements@[l]@),
                        forall|l: int|
                            (k as int) < l < (i2 as int) ==> handle_region_v(
                                #[trigger] out@[l + m as int - 1],
                            ) == handle_region_v(self.regions@[l]),
                    decreases n - i2,
                {
                    out.push(clone_region_handle(&self.regions[i2]));
                    i2 += 1;
                }
                return Sketch::new(out);
            }
            k += 1;
        }
        proof {
            crate::store::lemma_not_contains_from_scan(
                self.regions_v(),
                handle_region_v(*handle),
            );
            assert(false);
        }
        Sketch::new(Vec::new())
    }
}

} // verus!
