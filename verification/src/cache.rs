//! The curve approximation cache: polyline approximations of curve segments,
//! keyed by curve handle and parameter-range boundary.
//!
//! Every segment is stored with its boundary in normalized (ascending)
//! order; a request given in reversed order gets its answer reversed back.
//! For one exact boundary the first stored segment is definitive: a later
//! insert with the same boundary hands the cached segment back unchanged.

use vstd::prelude::*;

use crate::geometry::Curve;
use crate::math::{Point1, Point3};
use crate::store::Handle;

verus! {

/// A boundary of a curve segment: an ordered pair of curve parameters.
#[derive(Clone, Copy, PartialEq, Eq, Structural, Debug)]
pub struct CurveBoundary {
    /// The parameter at which the segment starts.
    pub start: Point1,
    /// The parameter at which the segment ends.
    pub end: Point1,
}

impl CurveBoundary {
    /// Whether the two bounding parameters are in ascending order.
    pub open spec fn spec_is_normalized(self) -> bool {
        self.start.t <= self.end.t
    }

    /// The boundary with its parameters brought into ascending order.
    pub open spec fn spec_normalize(self) -> Self {
        if self.spec_is_normalized() {
            self
        } else {
            self.spec_reverse()
        }
    }

    /// The boundary with its two parameters swapped.
    pub open spec fn spec_reverse(self) -> Self {
        CurveBoundary { start: self.end, end: self.start }
    }

    /// Whether the two bounding parameters are in ascending order.
    pub fn is_normalized(&self) -> (r: bool)
        ensures
            r == self.spec_is_normalized(),
    {
        self.start.t <= self.end.t
    }

    /// Brings the two bounding parameters into ascending order.
    pub fn normalize(self) -> (r: Self)
        ensures
            r == self.spec_normalize(),
    {
        if self.start.t <= self.end.t {
            self
        } else {
            self.reverse()
        }
    }

    /// Swaps the two bounding parameters.
    pub fn reverse(self) -> (r: Self)
        ensures
            r == self.spec_reverse(),
    {
        CurveBoundary { start: self.end, end: self.start }
    }
}

/// One point of a polyline approximation: the curve parameter it was
/// computed at, and the position in global coordinates.
#[derive(Clone, Copy, PartialEq, Eq, Structural, Debug)]
pub struct ApproxPoint {
    /// The curve parameter of the point.
    pub local_form: Point1,
    /// The position of the point in space.
    pub global_form: Point3,
}

impl ApproxPoint {
    /// Pairs a curve parameter with the position computed for it.
    pub fn new(local_form: Point1, global_form: Point3) -> (r: Self)
        ensures
            r.local_form == local_form,
            r.global_form == global_form,
    {
        ApproxPoint { local_form, global_form }
    }
}

/// The mathematical content of an approximated segment: its boundary and
/// the ordered points of its polyline.
pub struct SegmentModel {
    pub boundary: CurveBoundary,
    pub points: Seq<ApproxPoint>,
}

/// A segment reversed: boundary swapped, point order reversed.
pub open spec fn spec_reverse_segment(s: SegmentModel) -> SegmentModel {
    SegmentModel { boundary: s.boundary.spec_reverse(), points: s.points.reverse() }
}

/// A segment brought into normalized boundary order, its points reversed
/// along with the boundary if that was necessary.
pub open spec fn spec_normalize_segment(s: SegmentModel) -> SegmentModel {
    if s.boundary.spec_is_normalized() {
        s
    } else {
        spec_reverse_segment(s)
    }
}

/// A well-formed cache entry: every segment normalized, and no two segments
/// sharing a boundary.
pub open spec fn entry_wf(segs: Seq<SegmentModel>) -> bool {
    &&& forall|i: int|
        0 <= i < segs.len() ==> (#[trigger] segs[i]).boundary.spec_is_normalized()
    &&& forall|i: int, j: int|
        0 <= i < j < segs.len() ==> (#[trigger] segs[i]).boundary != (
        #[trigger] segs[j]).boundary
}

/// The first segment stored under exactly the given normalized boundary.
pub open spec fn find_normalized(segs: Seq<SegmentModel>, nb: CurveBoundary) -> Option<
    SegmentModel,
>
    decreases segs.len(),
{
    if segs.len() == 0 {
        Option::None
    } else if segs[0].boundary == nb {
        Option::Some(segs[0])
    } else {
        find_normalized(segs.drop_first(), nb)
    }
}

/// What `get` answers, given the cached segments for the curve (if any) and
/// the requested boundary: the segment stored under the normalized request,
/// reversed if the request itself was reversed; nothing on a miss.
pub open spec fn model_get(
    entry: Option<Seq<SegmentModel>>,
    boundary: CurveBoundary,
) -> Option<Seq<SegmentModel>> {
    match entry {
        Option::None => Option::None,
        Option::Some(segs) => match find_normalized(segs, boundary.spec_normalize()) {
            Option::None => Option::None,
            Option::Some(seg) => if boundary.spec_is_normalized() {
                Option::Some(seq![seg])
            } else {
                Option::Some(seq![spec_reverse_segment(seg)])
            },
        },
    }
}

/// What `insert` leaves as the curve's cached segments and hands back,
/// given the previously cached segments (if any) and the already-normalized
/// new segment: on a boundary match the cache keeps and returns the segment
/// it already had; otherwise the new segment joins the others and is
/// returned unchanged.
pub open spec fn model_insert(
    entry: Option<Seq<SegmentModel>>,
    ns: SegmentModel,
) -> (Seq<SegmentModel>, SegmentModel) {
    match entry {
        Option::None => (seq![ns], ns),
        Option::Some(segs) => match find_normalized(segs, ns.boundary) {
            Option::Some(existing) => (segs, existing),
            Option::None => (segs.push(ns), ns),
        },
    }
}

/// A segment found at position `k`, with no earlier boundary match, is what
/// `find_normalized` answers.
pub proof fn lemma_find_normalized_at(segs: Seq<SegmentModel>, nb: CurveBoundary, k: int)
    requires
        0 <= k < segs.len(),
        segs[k].boundary == nb,
        forall|j: int| 0 <= j < k ==> (#[trigger] segs[j]).boundary != nb,
    ensures
        find_normalized(segs, nb) == Option::Some(segs[k]),
    decreases k,
{
    if k > 0 {
        assert(segs.drop_first()[k - 1] == segs[k]);
        assert forall|j: int| 0 <= j < k - 1 implies (#[trigger] segs.drop_first()[j]).boundary
            != nb by {
            assert(segs[j + 1] == segs.drop_first()[j]);
        }
        lemma_find_normalized_at(segs.drop_first(), nb, k - 1);
    }
}

/// When no stored segment has the boundary, `find_normalized` answers
/// nothing, and the other way round.
pub proof fn lemma_find_normalized_none(segs: Seq<SegmentModel>, nb: CurveBoundary)
    ensures
        (find_normalized(segs, nb) is None) <==> (forall|j: int|
            0 <= j < segs.len() ==> (#[trigger] segs[j]).boundary != nb),
    decreases segs.len(),
{
    if segs.len() > 0 {
        lemma_find_normalized_none(segs.drop_first(), nb);
        if segs[0].boundary != nb {
            if find_normalized(segs, nb) is None {
                assert forall|j: int| 0 <= j < segs.len() implies (#[trigger] segs[j]).boundary
                    != nb by {
                    if j > 0 {
                        assert(segs.drop_first()[j - 1] == segs[j]);
                    }
                }
            } else {
                let j = choose|j: int|
                    0 <= j < segs.drop_first().len() && (#[trigger] segs.drop_first()[j]).boundary
                        == nb;
                assert(segs[j + 1].boundary == nb);
            }
        }
    }
}

/// An approximated segment of a curve: a boundary and the polyline points
/// computed for the parameter range it delimits.
#[derive(Debug)]
pub struct CurveApproxSegment {
    /// The parameter range the points cover.
    pub boundary: CurveBoundary,
    /// The polyline points, ordered along the boundary.
    pub points: Vec<ApproxPoint>,
}

impl View for CurveApproxSegment {
    type V = SegmentModel;

    open spec fn view(&self) -> SegmentModel {
        SegmentModel { boundary: self.boundary, points: self.points@ }
    }
}

impl Clone for CurveApproxSegment {
    /// An exact copy of the segment.
    fn clone(&self) -> (r: Self)
        ensures
            r@ == self@,
    {
        CurveApproxSegment { boundary: self.boundary, points: copy_points(&self.points) }
    }
}

impl PartialEq for CurveApproxSegment {
    /// Structural equality: same boundary, same points in the same order.
    fn eq(&self, other: &Self) -> (r: bool) {
        self.boundary == other.boundary && points_eq(&self.points, &other.points)
    }
}

impl vstd::std_specs::cmp::PartialEqSpecImpl for CurveApproxSegment {
    open spec fn obeys_eq_spec() -> bool {
        true
    }

    open spec fn eq_spec(&self, other: &Self) -> bool {
        self@ == other@
    }
}

impl CurveApproxSegment {
    /// Whether the segment's boundary is in ascending order.
    pub fn is_normalized(&self) -> (r: bool)
        ensures
            r == self@.boundary.spec_is_normalized(),
    {
        self.boundary.is_normalized()
    }

    /// Swaps the boundary and reverses the point order with it.
    pub fn reverse(&mut self)
        ensures
            final(self)@ == spec_reverse_segment(old(self)@),
    {
        self.boundary = self.boundary.reverse();
        let reversed = reversed_points(&self.points);
        self.points = reversed;
    }

    /// Brings the boundary into ascending order, reversing the point order
    /// along with it if the boundary had to be swapped.
    pub fn normalize(&mut self)
        ensures
            final(self)@ == spec_normalize_segment(old(self)@),
    {
        if !self.is_normalized() {
            self.reverse();
        }
    }
}

/// The approximation known for one curve: one segment per known boundary.
#[derive(Debug)]
pub struct CurveApprox {
    /// The approximated segments, one per known boundary.
    pub segments: Vec<CurveApproxSegment>,
}

impl View for CurveApprox {
    type V = Seq<SegmentModel>;

    open spec fn view(&self) -> Seq<SegmentModel> {
        Seq::new(self.segments@.len(), |i: int| self.segments@[i]@)
    }
}

impl Clone for CurveApprox {
    /// An exact copy of the approximation.
    fn clone(&self) -> (r: Self)
        ensures
            r@ == self@,
    {
        let mut segments: Vec<CurveApproxSegment> = Vec::new();
        let mut i: usize = 0;
        let n = self.segments.len();
        while i < n
            invariant
                i <= n,
                n == self.segments@.len(),
                segments@.len() == i as int,
                forall|j: int| 0 <= j < i as int ==> segments@[j]@ == self.segments@[j]@,
            decreases n - i,
        {
            segments.push(self.segments[i].clone());
            i += 1;
        }
        let r = CurveApprox { segments };
        proof {
            assert(r@ =~= self@);
        }
        r
    }
}

impl PartialEq for CurveApprox {
    /// Structural equality: the same segments in the same order.
    fn eq(&self, other: &Self) -> (r: bool) {
        if self.segments.len() != other.segments.len() {
            return false;
        }
        let mut i: usize = 0;
        let n = self.segments.len();
        while i < n
            invariant
                i <= n,
                n == self.segments@.len(),
                other.segments@.len() == n,
                forall|j: int| 0 <= j < i as int ==> self.segments@[j]@ == other.segments@[j]@,
            decreases n - i,
        {
            if !(self.segments[i] == other.segments[i]) {
                assert(self@[i as int] != other@[i as int]);
                return false;
            }
            i += 1;
        }
        proof {
            assert(self@ =~= other@);
        }
        true
    }
}

impl vstd::std_specs::cmp::PartialEqSpecImpl for CurveApprox {
    open spec fn obeys_eq_spec() -> bool {
        true
    }

    open spec fn eq_spec(&self, other: &Self) -> bool {
        self@ == other@
    }
}

impl CurveApprox {
    /// Reverses the approximation: the segments' order, and each segment.
    pub fn reverse(&mut self)
        ensures
            final(self)@ == Seq::new(old(self)@.len(), |i: int| spec_reverse_segment(
                old(self)@[old(self)@.len() - 1 - i],
            )),
    {
        let mut segments: Vec<CurveApproxSegment> = Vec::new();
        let n = self.segments.len();
        let mut i: usize = 0;
        while i < n
            invariant
                i <= n,
                n == old(self).segments@.len(),
                *self == *old(self),
                segments@.len() == i as int,
                forall|j: int| 0 <= j < i as int ==> segments@[j]@ == spec_reverse_segment(
                    old(self)@[n - 1 - j],
                ),
            decreases n - i,
        {
            let mut seg = self.segments[n - 1 - i].clone();
            seg.reverse();
            segments.push(seg);
            i += 1;
        }
        self.segments = segments;
        proof {
            assert(self@ =~= Seq::new(old(self)@.len(), |i: int| spec_reverse_segment(
                old(self)@[old(self)@.len() - 1 - i],
            )));
        }
    }

    /// Merges a new, already-normalized segment into the approximation:
    /// keeps and returns the existing segment when one with the same
    /// boundary is already present, else adds the new segment and returns
    /// it unchanged.
    pub fn merge(&mut self, new_segment: CurveApproxSegment) -> (r: CurveApproxSegment)
        requires
            entry_wf(old(self)@),
            new_segment@.boundary.spec_is_normalized(),
        ensures
            entry_wf(final(self)@),
            final(self)@ == model_insert(Option::Some(old(self)@), new_segment@).0,
            r@ == model_insert(Option::Some(old(self)@), new_segment@).1,
    {
        let n = self.segments.len();
        let mut i: usize = 0;
        while i < n
            invariant
                i <= n,
                n == self.segments@.len(),
                *self == *old(self),
                entry_wf(old(self)@),
                forall|j: int| 0 <= j < i as int ==> self@[j].boundary != new_segment@.boundary,
            decreases n - i,
        {
            if self.segments[i].boundary == new_segment.boundary {
                let existing = self.segments[i].clone();
                proof {
                    assert(self@ == old(self)@);
                    lemma_find_normalized_at(old(self)@, new_segment@.boundary, i as int);
                }
                return existing;
            }
            i += 1;
        }
        self.segments.push(new_segment);
        let r_index = self.segments.len() - 1;
        let r = self.segments[r_index].clone();
        proof {
            assert(self@ =~= old(self)@.push(self@[old(self)@.len() as int]));
            lemma_find_normalized_none(old(self)@, r@.boundary);
        }
        r
    }
}

/// Whether two point vectors hold the same points in the same order.
fn points_eq(a: &Vec<ApproxPoint>, b: &Vec<ApproxPoint>) -> (r: bool)
    ensures
        r == (a@ == b@),
{
    if a.len() != b.len() {
        return false;
    }
    let mut i: usize = 0;
    let n = a.len();
    while i < n
        invariant
            i <= n,
            n == a@.len(),
            b@.len() == n,
            forall|j: int| 0 <= j < i as int ==> a@[j] == b@[j],
        decreases n - i,
    {
        if !(a[i] == b[i]) {
            return false;
        }
        i += 1;
    }
    proof {
        assert(a@ =~= b@);
    }
    true
}

/// An exact copy of a point vector.
fn copy_points(points: &Vec<ApproxPoint>) -> (r: Vec<ApproxPoint>)
    ensures
        r@ == points@,
{
    let mut r: Vec<ApproxPoint> = Vec::new();
    let mut i: usize = 0;
    let n = points.len();
    while i < n
        invariant
            i <= n,
            n == points@.len(),
            r@.len() == i as int,
            forall|j: int| 0 <= j < i as int ==> r@[j] == points@[j],
        decreases n - i,
    {
        r.push(points[i]);
        i += 1;
    }
    proof {
        assert(r@ =~= points@);
    }
    r
}

/// The points in reverse order.
fn reversed_points(points: &Vec<ApproxPoint>) -> (r: Vec<ApproxPoint>)
    ensures
        r@ == points@.reverse(),
{
    let mut r: Vec<ApproxPoint> = Vec::new();
    let mut i: usize = 0;
    let n = points.len();
    while i < n
        invariant
            i <= n,
            n == points@.len(),
            r@.len() == i as int,
            forall|j: int| 0 <= j < i as int ==> r@[j] == points@[n - 1 - j],
        decreases n - i,
    {
        r.push(points[n - 1 - i]);
        i += 1;
    }
    proof {
        assert(r@ =~= points@.reverse());
    }
    r
}


/// An `Option<CurveApprox>` result, seen as its mathematical content.
pub open spec fn approx_opt_view(r: Option<CurveApprox>) -> Option<Seq<SegmentModel>> {
    match r {
        Option::None => Option::None,
        Option::Some(a) => Option::Some(a@),
    }
}

/// The cached segments of `c` in an association list of cache entries:
/// the contents stored beside the first key equal to `c`.
pub open spec fn assoc_lookup(
    s: Seq<(Handle<Curve>, CurveApprox)>,
    c: Handle<Curve>,
) -> Option<Seq<SegmentModel>>
    decreases s.len(),
{
    if s.len() == 0 {
        Option::None
    } else if s[0].0 == c {
        Option::Some(s[0].1@)
    } else {
        assoc_lookup(s.drop_first(), c)
    }
}

/// A key occurs in the list exactly when looking it up finds something.
proof fn lemma_assoc_none_iff(s: Seq<(Handle<Curve>, CurveApprox)>, c: Handle<Curve>)
    ensures
        (assoc_lookup(s, c) is None) <==> (forall|j: int|
            0 <= j < s.len() ==> (#[trigger] s[j]).0 != c),
    decreases s.len(),
{
    if s.len() > 0 {
        lemma_assoc_none_iff(s.drop_first(), c);
        if s[0].0 != c {
            if assoc_lookup(s, c) is None {
                assert forall|j: int| 0 <= j < s.len() implies (#[trigger] s[j]).0 != c by {
                    if j > 0 {
                        assert(s.drop_first()[j - 1] == s[j]);
                    }
                }
            } else {
                let j = choose|j: int|
                    0 <= j < s.drop_first().len() && (#[trigger] s.drop_first()[j]).0 == c;
                assert(s[j + 1].0 == c);
            }
        }
    }
}

/// Looking up the key stored at `k` finds the contents stored there, as
/// long as no earlier entry holds the same key.
proof fn lemma_assoc_lookup_at(s: Seq<(Handle<Curve>, CurveApprox)>, c: Handle<Curve>, k: int)
    requires
        0 <= k < s.len(),
        s[k].0 == c,
        forall|j: int| 0 <= j < k ==> (#[trigger] s[j]).0 != c,
    ensures
        assoc_lookup(s, c) == Option::Some(s[k].1@),
    decreases k,
{
    if k > 0 {
        assert forall|j: int| 0 <= j < k - 1 implies (#[trigger] s.drop_first()[j]).0 != c by {
            assert(s[j + 1] == s.drop_first()[j]);
        }
        assert(s.drop_first()[k - 1] == s[k]);
        lemma_assoc_lookup_at(s.drop_first(), c, k - 1);
    }
}

/// Appending an entry with a different key changes no lookup of `d`.
proof fn lemma_assoc_push_other(
    s: Seq<(Handle<Curve>, CurveApprox)>,
    kv: (Handle<Curve>, CurveApprox),
    d: Handle<Curve>,
)
    requires
        d != kv.0,
    ensures
        assoc_lookup(s.push(kv), d) == assoc_lookup(s, d),
    decreases s.len(),
{
    if s.len() == 0 {
        assert(s.push(kv)[0] == kv);
        assert(s.push(kv).drop_first() =~= Seq::<(Handle<Curve>, CurveApprox)>::empty());
        assert(assoc_lookup(s.push(kv).drop_first(), d) is None);
    } else {
        assert(s.push(kv)[0] == s[0]);
        assert(s.push(kv).drop_first() =~= s.drop_first().push(kv));
        lemma_assoc_push_other(s.drop_first(), kv, d);
    }
}

/// Replacing the entry at `k` by one with the same key redirects lookups of
/// that key to the new contents and leaves every other lookup unchanged.
proof fn lemma_assoc_update(
    s: Seq<(Handle<Curve>, CurveApprox)>,
    k: int,
    kv: (Handle<Curve>, CurveApprox),
    d: Handle<Curve>,
)
    requires
        0 <= k < s.len(),
        s[k].0 == kv.0,
        forall|j: int| 0 <= j < k ==> (#[trigger] s[j]).0 != kv.0,
    ensures
        assoc_lookup(s.update(k, kv), d) == (if d == kv.0 {
            Option::Some(kv.1@)
        } else {
            assoc_lookup(s, d)
        }),
    decreases s.len(),
{
    let t = s.update(k, kv);
    if k == 0 {
        assert(t[0] == kv);
        if d != kv.0 {
            assert(t.drop_first() =~= s.drop_first());
        }
    } else {
        assert(t[0] == s[0]);
        assert(s[0].0 != kv.0);
        if d == s[0].0 {
        } else {
            assert(t.drop_first() =~= s.drop_first().update(k - 1, kv));
            assert(s.drop_first()[k - 1] == s[k]);
            assert forall|j: int| 0 <= j < k - 1 implies (#[trigger] s.drop_first()[j]).0 != kv.0 by {
                assert(s[j + 1] == s.drop_first()[j]);
            }
            lemma_assoc_update(s.drop_first(), k - 1, kv, d);
        }
    }
}

/// The curve approximation cache: for each curve that has been approximated,
/// the segments known for it, held in normalized form.
pub struct CurveApproxCache {
    inner: Vec<(Handle<Curve>, CurveApprox)>,
}

impl CurveApproxCache {
    /// The segments cached for one curve, in their stored order.
    pub closed spec fn entry(self, curve: Handle<Curve>) -> Option<Seq<SegmentModel>> {
        assoc_lookup(self.inner@, curve)
    }

    /// The cache's invariant: one entry per curve, every stored segment
    /// normalized, and no two segments of one curve sharing a boundary.
    pub closed spec fn wf(self) -> bool {
        &&& forall|i: int, j: int|
            0 <= i < j < self.inner@.len() ==> (#[trigger] self.inner@[i]).0 != (
            #[trigger] self.inner@[j]).0
        &&& forall|i: int|
            0 <= i < self.inner@.len() ==> entry_wf((#[trigger] self.inner@[i]).1@)
    }

    /// The position of the curve's entry, if the cache holds one.
    fn find_entry(&self, curve: &Handle<Curve>) -> (r: Option<usize>)
        ensures
            match r {
                Option::Some(k) => (k as int) < self.inner@.len()
                    && self.inner@[k as int].0 == *curve && self.entry(*curve)
                    == Option::Some(self.inner@[k as int].1@) && (forall|j: int|
                    0 <= j < k as int ==> (#[trigger] self.inner@[j]).0 != *curve),
                Option::None => self.entry(*curve) is None,
            },
    {
        let n = self.inner.len();
        let mut idx: usize = 0;
        while idx < n
            invariant
                idx <= n,
                n == self.inner@.len(),
                forall|j: int| 0 <= j < idx as int ==> (#[trigger] self.inner@[j]).0 != *curve,
            decreases n - idx,
        {
            if self.inner[idx].0 == *curve {
                proof {
                    lemma_assoc_lookup_at(self.inner@, *curve, idx as int);
                }
                return Option::Some(idx);
            }
            idx += 1;
        }
        proof {
            lemma_assoc_none_iff(self.inner@, *curve);
        }
        Option::None
    }

    /// Gets an approximation from the cache: the segment stored for exactly
    /// the normalized form of the requested boundary, reversed back when the
    /// request itself was reversed; nothing on a miss.
    pub fn get(&self, curve: &Handle<Curve>, boundary: &CurveBoundary) -> (r: Option<
        CurveApprox,
    >)
        requires
            self.wf(),
        ensures
            approx_opt_view(r) == model_get(self.entry(*curve), *boundary),
            r matches Option::Some(a) ==> a@.len() == 1,
    {
        let was_already_normalized = boundary.is_normalized();
        let normalized_boundary = boundary.normalize();
        match self.find_entry(curve) {
            Option::None => Option::None,
            Option::Some(k) => {
                let ghost entry = self.inner@[k as int].1@;
                proof {
                    assert(entry_wf(entry));
                }
                let n = self.inner[k].1.segments.len();
                let mut j: usize = 0;
                while j < n
                    invariant
                        j <= n,
                        (k as int) < self.inner@.len(),
                        n == self.inner@[k as int].1.segments@.len(),
                        entry == self.inner@[k as int].1@,
                        entry_wf(entry),
                        self.entry(*curve) == Option::Some(entry),
                        normalized_boundary == boundary.spec_normalize(),
                        was_already_normalized == boundary.spec_is_normalized(),
                        forall|l: int|
                            0 <= l < j as int ==> (#[trigger] entry[l]).boundary
                                != normalized_boundary,
                    decreases n - j,
                {
                    if self.inner[k].1.segments[j].boundary == normalized_boundary {
                        let mut seg = self.inner[k].1.segments[j].clone();
                        if !was_already_normalized {
                            seg.reverse();
                        }
                        let mut segments: Vec<CurveApproxSegment> = Vec::new();
                        segments.push(seg);
                        let out = CurveApprox { segments };
                        proof {
                            lemma_find_normalized_at(entry, normalized_boundary, j as int);
                            if was_already_normalized {
                                assert(out@ =~= seq![entry[j as int]]);
                            } else {
                                assert(out@ =~= seq![spec_reverse_segment(entry[j as int])]);
                            }
                        }
                        return Option::Some(out);
                    }
                    j += 1;
                }
                proof {
                    lemma_find_normalized_none(entry, normalized_boundary);
                }
                Option::None
            },
        }
    }

    /// Inserts an approximated segment of the curve into the cache: the
    /// segment is stored in normalized form; when the curve already has a
    /// segment with the same normalized boundary, that cached segment is
    /// kept and returned instead.
    pub fn insert(&mut self, curve: Handle<Curve>, new_segment: CurveApproxSegment) -> (r:
        CurveApproxSegment)
        requires
            old(self).wf(),
        ensures
            final(self).wf(),
            final(self).entry(curve) == Option::Some(
                model_insert(
                    old(self).entry(curve),
                    spec_normalize_segment(new_segment@),
                ).0,
            ),
            r@ == model_insert(old(self).entry(curve), spec_normalize_segment(new_segment@)).1,
            forall|c: Handle<Curve>|
                c != curve ==> #[trigger] final(self).entry(c) == old(self).entry(c),
    {
        let mut new_segment = new_segment;
        new_segment.normalize();
        match self.find_entry(&curve) {
            Option::None => {
                let r = new_segment.clone();
                let mut segments: Vec<CurveApproxSegment> = Vec::new();
                segments.push(new_segment);
                let approx = CurveApprox { segments };
                proof {
                    assert(approx@ =~= seq![spec_normalize_segment(new_segment@)]);
                }
                let ghost old_inner = self.inner@;
                self.inner.push((curve, approx));
                proof {
                    lemma_assoc_none_iff(old_inner, curve);
                    lemma_assoc_lookup_at(self.inner@, curve, old_inner.len() as int);
                    assert forall|c: Handle<Curve>| c != curve implies #[trigger] assoc_lookup(
                        self.inner@,
                        c,
                    ) == assoc_lookup(old_inner, c) by {
                        lemma_assoc_push_other(old_inner, (curve, approx), c);
                    }
                    assert forall|i: int, j: int|
                        0 <= i < j < self.inner@.len() implies (#[trigger] self.inner@[i]).0 != (
                    #[trigger] self.inner@[j]).0 by {
                        if j == old_inner.len() as int {
                            assert(self.inner@[i] == old_inner[i]);
                        }
                    }
                }
                r
            },
            Option::Some(k) => {
                let ghost old_inner = self.inner@;
                let mut entry = self.inner.remove(k);
                let r = entry.1.merge(new_segment);
                self.inner.insert(k, entry);
                proof {
                    assert(self.inner@ =~= old_inner.update(
                        k as int,
                        (old_inner[k as int].0, self.inner@[k as int].1),
                    ));
                    assert forall|c: Handle<Curve>| true implies #[trigger] assoc_lookup(
                        self.inner@,
                        c,
                    ) == (if c == curve {
                        Option::Some(self.inner@[k as int].1@)
                    } else {
                        assoc_lookup(old_inner, c)
                    }) by {
                        lemma_assoc_update(
                            old_inner,
                            k as int,
                            (old_inner[k as int].0, self.inner@[k as int].1),
                            c,
                        );
                    }
                    assert forall|i: int, j: int|
                        0 <= i < j < self.inner@.len() implies (#[trigger] self.inner@[i]).0 != (
                    #[trigger] self.inner@[j]).0 by {
                        assert(self.inner@[i].0 == old_inner[i].0);
                        assert(self.inner@[j].0 == old_inner[j].0);
                    }
                    assert forall|i: int|
                        0 <= i < self.inner@.len() implies entry_wf(
                        (#[trigger] self.inner@[i]).1@,
                    ) by {
                        if i != k as int {
                            assert(self.inner@[i] == old_inner[i]);
                        }
                    }
                }
                r
            },
        }
    }
}

impl Default for CurveApproxCache {
    /// An empty cache: no curve has an entry yet.
    fn default() -> (r: Self)
        ensures
            r.wf(),
            forall|c: Handle<Curve>| (#[trigger] r.entry(c)) is None,
    {
        CurveApproxCache { inner: Vec::new() }
    }
}

/// Approximates one curve segment through the cache: answers from the cache
/// when the exact boundary is already known, else stores the freshly
/// computed points and hands them back.
pub fn approx_with_cache(
    curve: &Handle<Curve>,
    boundary: CurveBoundary,
    fresh_points: Vec<ApproxPoint>,
    cache: &mut CurveApproxCache,
) -> (r: CurveApproxSegment)
    requires
        old(cache).wf(),
    ensures
        final(cache).wf(),
        model_get(old(cache).entry(*curve), boundary) matches Option::Some(segs) ==> {
            &&& *final(cache) == *old(cache)
            &&& r@ == segs[0]
        },
        model_get(old(cache).entry(*curve), boundary) is None ==> {
            let fresh = SegmentModel { boundary, points: fresh_points@ };
            &&& r@ == fresh
            &&& final(cache).entry(*curve) == Option::Some(
                model_insert(old(cache).entry(*curve), spec_normalize_segment(fresh)).0,
            )
            &&& forall|c: Handle<Curve>|
                c != *curve ==> #[trigger] final(cache).entry(c) == old(cache).entry(c)
        },
{
    match cache.get(curve, &boundary) {
        Option::Some(approx) => {
            let mut approx = approx;
            match approx.segments.pop() {
                Option::Some(seg) => seg,
                Option::None => {
                    proof {
                        assert(approx@.len() == 0);
                        assert(false);
                    }
                    CurveApproxSegment { boundary, points: fresh_points }
                },
            }
        },
        Option::None => {
            let seg = CurveApproxSegment { boundary, points: fresh_points };
            let r = seg.clone();
            cache.insert(*curve, seg);
            r
        },
    }
}





/// Reversing a segment twice gives the segment back.
pub proof fn lemma_reverse_segment_involution(s: SegmentModel)
    ensures
        spec_reverse_segment(spec_reverse_segment(s)) == s,
{
    assert(s.points.reverse().reverse() =~= s.points);
}

/// Boundary normalization round-trip: after inserting a segment over a
/// boundary whose two parameters differ and that the cache did not hold
/// yet, asking for that exact boundary yields the segment's points in the
/// order they were given, and asking for the reversed boundary yields them
/// in reversed order.
pub proof fn lemma_boundary_round_trip(entry: Option<Seq<SegmentModel>>, seg: SegmentModel)
    requires
        seg.boundary.start != seg.boundary.end,
        entry matches Option::Some(segs) ==> find_normalized(
            segs,
            seg.boundary.spec_normalize(),
        ) is None,
    ensures
        ({
            let merged = model_insert(entry, spec_normalize_segment(seg)).0;
            &&& model_get(Option::Some(merged), seg.boundary) == Option::Some(seq![seg])
            &&& model_get(Option::Some(merged), seg.boundary.spec_reverse()) == Option::Some(
                seq![spec_reverse_segment(seg)],
            )
        }),
{
    let ns = spec_normalize_segment(seg);
    let merged = model_insert(entry, ns).0;
    lemma_reverse_segment_involution(seg);
    match entry {
        Option::None => {
            assert(merged == seq![ns]);
            assert(merged[0] == ns);
            lemma_find_normalized_at(merged, ns.boundary, 0);
        },
        Option::Some(segs) => {
            assert(merged == segs.push(ns));
            assert(merged[segs.len() as int] == ns);
            lemma_find_normalized_none(segs, seg.boundary.spec_normalize());
            assert forall|j: int|
                0 <= j < segs.len() as int implies (#[trigger] merged[j]).boundary
                != ns.boundary by {
                assert(merged[j] == segs[j]);
            }
            lemma_find_normalized_at(merged, ns.boundary, segs.len() as int);
        },
    }
}

/// Congruent-boundary stability: inserting a second segment whose
/// normalized boundary the cache already holds keeps and returns the
/// original cached segment, and a later request for that boundary still
/// answers with the original, not the newcomer.
pub proof fn lemma_congruent_insert_keeps_original(segs: Seq<SegmentModel>, ns: SegmentModel)
    requires
        entry_wf(segs),
        ns.boundary.spec_is_normalized(),
        find_normalized(segs, ns.boundary) is Some,
    ensures
        ({
            let m = model_insert(Option::Some(segs), ns);
            &&& m.0 == segs
            &&& m.1 == find_normalized(segs, ns.boundary)->0
            &&& model_get(Option::Some(m.0), ns.boundary) == Option::Some(
                seq![find_normalized(segs, ns.boundary)->0],
            )
        }),
{
    assert(ns.boundary.spec_normalize() == ns.boundary);
}

/// Disjoint-segment independence: inserting a segment over a boundary the
/// cache did not hold yet makes it retrievable, leaves every request for a
/// differently-normalized boundary answered as before, and a request whose
/// normalized boundary is still absent yields nothing.
pub proof fn lemma_disjoint_segments_coexist(
    segs: Seq<SegmentModel>,
    ns: SegmentModel,
    q: CurveBoundary,
)
    requires
        entry_wf(segs),
        ns.boundary.spec_is_normalized(),
        find_normalized(segs, ns.boundary) is None,
    ensures
        ({
            let merged = model_insert(Option::Some(segs), ns).0;
            &&& entry_wf(merged)
            &&& model_get(Option::Some(merged), ns.boundary) == Option::Some(seq![ns])
            &&& q.spec_normalize() != ns.boundary ==> model_get(Option::Some(merged), q)
                == model_get(Option::Some(segs), q)
            &&& find_normalized(merged, q.spec_normalize()) is None ==> model_get(
                Option::Some(merged),
                q,
            ) is None
        }),
{
    let merged = model_insert(Option::Some(segs), ns).0;
    assert(merged == segs.push(ns));
    assert(merged[segs.len() as int] == ns);
    lemma_find_normalized_none(segs, ns.boundary);
    assert forall|j: int|
        0 <= j < segs.len() as int implies (#[trigger] merged[j]).boundary != ns.boundary by {
        assert(merged[j] == segs[j]);
    }
    lemma_find_normalized_at(merged, ns.boundary, segs.len() as int);
    assert(entry_wf(merged)) by {
        assert forall|i: int|
            0 <= i < merged.len() implies (#[trigger] merged[i]).boundary.spec_is_normalized() by {
            if i < segs.len() as int {
                assert(merged[i] == segs[i]);
            }
        }
        assert forall|i: int, j: int|
            0 <= i < j < merged.len() implies (#[trigger] merged[i]).boundary != (
        #[trigger] merged[j]).boundary by {
            if j < segs.len() as int {
                assert(merged[i] == segs[i]);
                assert(merged[j] == segs[j]);
            } else {
                assert(merged[i] == segs[i]);
                assert(merged[j] == ns);
            }
        }
    }
    if q.spec_normalize() != ns.boundary {
        lemma_find_push_other(segs, ns, q.spec_normalize());
    }
}

/// Appending a segment with a different boundary changes no lookup of that
/// other boundary.
proof fn lemma_find_push_other(segs: Seq<SegmentModel>, ns: SegmentModel, nb: CurveBoundary)
    requires
        nb != ns.boundary,
    ensures
        find_normalized(segs.push(ns), nb) == find_normalized(segs, nb),
    decreases segs.len(),
{
    if segs.len() == 0 {
        assert(segs.push(ns)[0] == ns);
        assert(segs.push(ns).drop_first() =~= Seq::<SegmentModel>::empty());
        assert(find_normalized(segs.push(ns).drop_first(), nb) is None);
    } else {
        assert(segs.push(ns)[0] == segs[0]);
        assert(segs.push(ns).drop_first() =~= segs.drop_first().push(ns));
        lemma_find_push_other(segs.drop_first(), ns, nb);
    }
}


} // verus!
