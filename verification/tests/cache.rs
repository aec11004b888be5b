//! The curve approximation cache: exact-match lookup, normalization,
//! reversal, and first-writer-wins on congruent boundaries.

use brep_core::cache::{
    approx_with_cache, ApproxPoint, CurveApprox, CurveApproxCache, CurveApproxSegment,
    CurveBoundary,
};
use brep_core::geometry::{Curve, GlobalPath, Line};
use brep_core::math::{Point1, Point3};
use brep_core::shape::Shape;
use brep_core::store::Handle;

fn point1(t: i64) -> Point1 {
    Point1 { t }
}

fn point3(x: i64, y: i64, z: i64) -> Point3 {
    Point3 { x, y, z }
}

fn boundary(a: i64, b: i64) -> CurveBoundary {
    CurveBoundary {
        start: point1(a),
        end: point1(b),
    }
}

fn some_curve() -> Handle<Curve> {
    let mut shape = Shape::new();
    let curve = Curve {
        path: GlobalPath::Line(Line {
            origin: point3(0, 0, 0),
            direction: point3(1000, 0, 0),
        }),
    };
    shape.merge(curve).unwrap()
}

#[test]
fn insert_curve_already_exists_but_no_segment_merge_necessary() {
    let mut cache = CurveApproxCache::default();
    let curve = some_curve();

    // An approximation of our curve already exists.
    cache.insert(
        curve.clone(),
        CurveApproxSegment {
            boundary: boundary(2000, 3000),
            points: vec![
                ApproxPoint::new(point1(2250), point3(2250, 2250, 2250)),
                ApproxPoint::new(point1(2750), point3(2750, 2750, 2750)),
            ],
        },
    );

    // Here's another approximated segment for the same curve, but it
    // doesn't overlap with the already existing one.
    let segment = CurveApproxSegment {
        boundary: boundary(0, 1000),
        points: vec![
            ApproxPoint::new(point1(250), point3(250, 250, 250)),
            ApproxPoint::new(point1(750), point3(750, 750, 750)),
        ],
    };

    // When inserting the second segment, we expect to get it back
    // unchanged.
    let inserted = cache.insert(curve.clone(), segment.clone());
    assert_eq!(inserted, segment);
}

#[test]
fn insert_congruent_segment_already_exists() {
    let mut cache = CurveApproxCache::default();
    let curve = some_curve();

    // An approximation of our curve already exists.
    let b = boundary(0, 1000);
    let existing_segment = CurveApproxSegment {
        boundary: b,
        points: vec![
            ApproxPoint::new(point1(250), point3(250, 250, 250)),
            ApproxPoint::new(point1(750), point3(750, 750, 750)),
        ],
    };
    cache.insert(curve.clone(), existing_segment.clone());

    // Here's another approximated segment for the same curve that is
    // congruent with the existing one.
    let new_segment = CurveApproxSegment {
        boundary: b,
        points: vec![
            ApproxPoint::new(point1(240), point3(240, 240, 240)),
            ApproxPoint::new(point1(760), point3(760, 760, 760)),
        ],
    };

    // When inserting the second segment, we expect to get the original one
    // back.
    let inserted = cache.insert(curve.clone(), new_segment);
    assert_eq!(inserted, existing_segment);

    // Also, the new segment should not have replaced the existing one in
    // the cache.
    let cached = cache.get(&curve, &b);
    assert_eq!(
        cached,
        Some(CurveApprox {
            segments: vec![existing_segment]
        })
    );
}

#[test]
fn get_exact_match() {
    let mut cache = CurveApproxCache::default();
    let curve = some_curve();

    // An approximation of our curve already exists.
    cache.insert(
        curve.clone(),
        CurveApproxSegment {
            boundary: boundary(2000, 3000),
            points: vec![
                ApproxPoint::new(point1(2250), point3(2250, 2250, 2250)),
                ApproxPoint::new(point1(2750), point3(2750, 2750, 2750)),
            ],
        },
    );

    // Here's a second segment that doesn't overlap the existing one.
    let b = boundary(0, 1000);
    let segment = CurveApproxSegment {
        boundary: b,
        points: vec![
            ApproxPoint::new(point1(250), point3(250, 250, 250)),
            ApproxPoint::new(point1(750), point3(750, 750, 750)),
        ],
    };
    cache.insert(curve.clone(), segment.clone());

    // When asking for an approximation with the same boundary as the
    // second segment we added, we expect to get it back exactly.
    let cached = cache.get(&curve, &b);
    assert_eq!(
        cached,
        Some(CurveApprox {
            segments: vec![segment]
        })
    );
}

#[test]
fn get_exact_match_except_reversed() {
    let mut cache = CurveApproxCache::default();
    let curve = some_curve();

    // An approximation of our curve already exists.
    cache.insert(
        curve.clone(),
        CurveApproxSegment {
            boundary: boundary(2000, 3000),
            points: vec![
                ApproxPoint::new(point1(2250), point3(2250, 2250, 2250)),
                ApproxPoint::new(point1(2750), point3(2750, 2750, 2750)),
            ],
        },
    );

    // Here's a second segment that doesn't overlap the existing one.
    let b = boundary(0, 1000);
    let segment = CurveApproxSegment {
        points: vec![
            ApproxPoint::new(point1(250), point3(250, 250, 250)),
            ApproxPoint::new(point1(750), point3(750, 750, 750)),
        ],
        boundary: b,
    };
    cache.insert(curve.clone(), segment.clone());

    // When asking for an approximation with the same boundary of the
    // second segment we added but reversed, we expect to get back the
    // segment, but reversed.
    let cached = cache.get(&curve, &b.reverse());
    assert_eq!(
        cached,
        Some(CurveApprox {
            segments: vec![{
                let mut segment = segment;
                segment.reverse();
                segment
            }]
        })
    );
}

#[test]
fn get_for_absent_boundary_is_a_miss() {
    let mut cache = CurveApproxCache::default();
    let curve = some_curve();

    assert_eq!(cache.get(&curve, &boundary(0, 1000)), None);

    cache.insert(
        curve.clone(),
        CurveApproxSegment {
            boundary: boundary(2000, 3000),
            points: vec![ApproxPoint::new(point1(2500), point3(2500, 0, 0))],
        },
    );

    // The curve is known, but this exact boundary is not.
    assert_eq!(cache.get(&curve, &boundary(0, 1000)), None);
    // Both as given and reversed, the known boundary is a hit.
    assert!(cache.get(&curve, &boundary(2000, 3000)).is_some());
    assert!(cache.get(&curve, &boundary(3000, 2000)).is_some());
}

#[test]
fn insert_reversed_segment_is_stored_normalized() {
    let mut cache = CurveApproxCache::default();
    let curve = some_curve();

    // A segment given in reversed boundary order: the cache normalizes it.
    let inserted = cache.insert(
        curve.clone(),
        CurveApproxSegment {
            boundary: boundary(1000, 0),
            points: vec![
                ApproxPoint::new(point1(750), point3(750, 750, 750)),
                ApproxPoint::new(point1(250), point3(250, 250, 250)),
            ],
        },
    );
    assert_eq!(inserted.boundary, boundary(0, 1000));
    assert_eq!(
        inserted.points,
        vec![
            ApproxPoint::new(point1(250), point3(250, 250, 250)),
            ApproxPoint::new(point1(750), point3(750, 750, 750)),
        ]
    );

    // Asking in ascending order gets the points in ascending order.
    let cached = cache.get(&curve, &boundary(0, 1000)).unwrap();
    assert_eq!(cached.segments[0].points[0].local_form, point1(250));
}

#[test]
fn two_disjoint_segments_are_independent() {
    let mut cache = CurveApproxCache::default();
    let curve = some_curve();

    let first = CurveApproxSegment {
        boundary: boundary(2000, 3000),
        points: vec![
            ApproxPoint::new(point1(2250), point3(2250, 2250, 2250)),
            ApproxPoint::new(point1(2750), point3(2750, 2750, 2750)),
        ],
    };
    let second = CurveApproxSegment {
        boundary: boundary(0, 1000),
        points: vec![
            ApproxPoint::new(point1(250), point3(250, 250, 250)),
            ApproxPoint::new(point1(750), point3(750, 750, 750)),
        ],
    };
    cache.insert(curve.clone(), first.clone());
    cache.insert(curve.clone(), second.clone());

    // `get(C, [0,1])` returns exactly the second segment.
    let cached = cache.get(&curve, &boundary(0, 1000)).unwrap();
    assert_eq!(cached.segments, vec![second.clone()]);

    // `get(C, [1,0])` returns the second segment with its two points
    // swapped in order.
    let reversed = cache.get(&curve, &boundary(1000, 0)).unwrap();
    assert_eq!(
        reversed.segments[0].points,
        vec![
            ApproxPoint::new(point1(750), point3(750, 750, 750)),
            ApproxPoint::new(point1(250), point3(250, 250, 250)),
        ]
    );
    assert_eq!(reversed.segments[0].boundary, boundary(1000, 0));

    // The first segment is still retrievable on its own.
    let first_again = cache.get(&curve, &boundary(2000, 3000)).unwrap();
    assert_eq!(first_again.segments, vec![first]);
}

#[test]
fn congruent_insert_never_replaces_the_first_sampling() {
    let mut cache = CurveApproxCache::default();
    let curve = some_curve();

    let b = boundary(0, 1000);
    let first_points = vec![
        ApproxPoint::new(point1(100), point3(100, 0, 0)),
        ApproxPoint::new(point1(900), point3(900, 0, 0)),
    ];
    let second_points = vec![
        ApproxPoint::new(point1(500), point3(500, 0, 0)),
    ];

    cache.insert(
        curve.clone(),
        CurveApproxSegment {
            boundary: b,
            points: first_points.clone(),
        },
    );
    cache.insert(
        curve.clone(),
        CurveApproxSegment {
            boundary: b,
            points: second_points.clone(),
        },
    );

    // `get(C, B)` returns the first sampling, never the second.
    let cached = cache.get(&curve, &b).unwrap();
    assert_eq!(cached.segments[0].points, first_points);
    assert_ne!(cached.segments[0].points, second_points);
}

#[test]
fn approx_with_cache_computes_once_and_reuses() {
    let mut cache = CurveApproxCache::default();
    let curve = some_curve();
    let b = boundary(0, 1000);

    let fresh = vec![
        ApproxPoint::new(point1(250), point3(250, 250, 250)),
        ApproxPoint::new(point1(750), point3(750, 750, 750)),
    ];
    // A miss: the fresh points go into the cache and come back.
    let first = approx_with_cache(&curve, b, fresh.clone(), &mut cache);
    assert_eq!(first.points, fresh);

    // A hit: numerically different fresh points are ignored; the cached
    // sampling answers.
    let other = vec![ApproxPoint::new(point1(500), point3(500, 0, 0))];
    let second = approx_with_cache(&curve, b, other, &mut cache);
    assert_eq!(second.points, fresh);
}

#[test]
fn boundary_normalization_round_trip() {
    let b = boundary(3000, 1000);
    assert!(!b.is_normalized());
    let n = b.normalize();
    assert!(n.is_normalized());
    assert_eq!(n, boundary(1000, 3000));
    assert_eq!(b.reverse(), boundary(1000, 3000));
    assert_eq!(b.reverse().reverse(), b);
    // A normalized boundary is left alone.
    assert_eq!(n.normalize(), n);
}
