//! Bounding-box reduction over a track set, and track-set assembly.
//!
//! The minimum and maximum are taken per axis, independently, across every
//! sample of every track: the two corners need not be positions that occur
//! in the input.  An empty track set has no bounding box; callers check for
//! at least one sample first.

use vstd::prelude::*;

use crate::model::Point;
use crate::model::TrkPt;

verus! {

/// Indices `(i, j)` address a sample of the track set.
pub open spec fn valid_idx(ts: Seq<Seq<TrkPt>>, i: int, j: int) -> bool {
    0 <= i < ts.len() && 0 <= j < ts[i].len()
}

/// The track set holds at least one sample.
pub open spec fn spec_has_sample(ts: Seq<Seq<TrkPt>>) -> bool {
    exists|i: int, j: int| valid_idx(ts, i, j)
}

/// Sample `(i2, j2)` comes strictly before position `(i, j)` in scan order.
pub open spec fn before(i: int, j: int, i2: int, j2: int) -> bool {
    i2 < i || (i2 == i && j2 < j)
}

/// `lo` and `hi` are the per-axis minima and maxima of all samples: each
/// bound holds for every sample and is attained by some sample.
pub open spec fn spec_is_bounding_box(ts: Seq<Seq<TrkPt>>, lo: Point, hi: Point) -> bool {
    &&& forall|i: int, j: int|
        valid_idx(ts, i, j) ==> lo.lat <= (#[trigger] ts[i][j]).center.lat
    &&& forall|i: int, j: int|
        valid_idx(ts, i, j) ==> lo.lng <= (#[trigger] ts[i][j]).center.lng
    &&& forall|i: int, j: int|
        valid_idx(ts, i, j) ==> hi.lat >= (#[trigger] ts[i][j]).center.lat
    &&& forall|i: int, j: int|
        valid_idx(ts, i, j) ==> hi.lng >= (#[trigger] ts[i][j]).center.lng
    &&& exists|i: int, j: int|
        valid_idx(ts, i, j) && (#[trigger] ts[i][j]).center.lat == lo.lat
    &&& exists|i: int, j: int|
        valid_idx(ts, i, j) && (#[trigger] ts[i][j]).center.lng == lo.lng
    &&& exists|i: int, j: int|
        valid_idx(ts, i, j) && (#[trigger] ts[i][j]).center.lat == hi.lat
    &&& exists|i: int, j: int|
        valid_idx(ts, i, j) && (#[trigger] ts[i][j]).center.lng == hi.lng
}

/// Reduces a non-empty track set to the two corners of its bounding box:
/// the point of all per-axis minima and the point of all per-axis maxima.
#[verifier::loop_isolation(false)]
pub fn min_max(pts: &Vec<Vec<TrkPt>>) -> (r: (Point, Point))
    requires
        spec_has_sample(pts.deep_view()),
    ensures
        spec_is_bounding_box(pts.deep_view(), r.0, r.1),
{
    let ghost ts = pts.deep_view();
    let mut found = false;
    let mut lo = Point { lat: 0, lng: 0 };
    let mut hi = Point { lat: 0, lng: 0 };
    let mut i: usize = 0;
    while i < pts.len()
        invariant
            0 <= i <= pts.len(),
            found == exists|i2: int, j2: int| valid_idx(ts, i2, j2) && i2 < i,
            found ==> forall|i2: int, j2: int|
                valid_idx(ts, i2, j2) && i2 < i ==> lo.lat <= (#[trigger] ts[i2][j2]).center.lat
                    && lo.lng <= ts[i2][j2].center.lng && hi.lat >= ts[i2][j2].center.lat && hi.lng
                    >= ts[i2][j2].center.lng,
            found ==> exists|i2: int, j2: int|
                valid_idx(ts, i2, j2) && i2 < i && (#[trigger] ts[i2][j2]).center.lat == lo.lat,
            found ==> exists|i2: int, j2: int|
                valid_idx(ts, i2, j2) && i2 < i && (#[trigger] ts[i2][j2]).center.lng == lo.lng,
            found ==> exists|i2: int, j2: int|
                valid_idx(ts, i2, j2) && i2 < i && (#[trigger] ts[i2][j2]).center.lat == hi.lat,
            found ==> exists|i2: int, j2: int|
                valid_idx(ts, i2, j2) && i2 < i && (#[trigger] ts[i2][j2]).center.lng == hi.lng,
        decreases pts.len() - i,
    {
        let track = &pts[i];
        proof {
            assert(ts[i as int] == pts@[i as int].deep_view());
        }
        let mut j: usize = 0;
        while j < track.len()
            invariant
                0 <= i < pts.len(),
                0 <= j <= track.len(),
                track == &pts[i as int],
                track@.len() == ts[i as int].len(),
                forall|j2: int| 0 <= j2 < track@.len() ==> #[trigger] ts[i as int][j2] == track@[j2],
                found == exists|i2: int, j2: int|
                    valid_idx(ts, i2, j2) && before(i as int, j as int, i2, j2),
                found ==> forall|i2: int, j2: int|
                    valid_idx(ts, i2, j2) && before(i as int, j as int, i2, j2) ==> lo.lat <= (
                    #[trigger] ts[i2][j2]).center.lat && lo.lng <= ts[i2][j2].center.lng && hi.lat
                        >= ts[i2][j2].center.lat && hi.lng >= ts[i2][j2].center.lng,
                found ==> exists|i2: int, j2: int|
                    valid_idx(ts, i2, j2) && before(i as int, j as int, i2, j2) && (
                    #[trigger] ts[i2][j2]).center.lat == lo.lat,
                found ==> exists|i2: int, j2: int|
                    valid_idx(ts, i2, j2) && before(i as int, j as int, i2, j2) && (
                    #[trigger] ts[i2][j2]).center.lng == lo.lng,
                found ==> exists|i2: int, j2: int|
                    valid_idx(ts, i2, j2) && before(i as int, j as int, i2, j2) && (
                    #[trigger] ts[i2][j2]).center.lat == hi.lat,
                found ==> exists|i2: int, j2: int|
                    valid_idx(ts, i2, j2) && before(i as int, j as int, i2, j2) && (
                    #[trigger] ts[i2][j2]).center.lng == hi.lng,
            decreases track.len() - j,
        {
            let pt = track[j].center;
            proof {
                assert(ts[i as int][j as int] == track@[j as int]);
            }
            if !found {
                lo = pt;
                hi = pt;
                found = true;
            } else {
                if pt.lat < lo.lat {
                    lo.lat = pt.lat;
                }
                if pt.lng < lo.lng {
                    lo.lng = pt.lng;
                }
                if pt.lat > hi.lat {
                    hi.lat = pt.lat;
                }
                if pt.lng > hi.lng {
                    hi.lng = pt.lng;
                }
            }
            proof {
                assert(valid_idx(ts, i as int, j as int) && before(i as int, j + 1, i as int, j as int));
            }
            j = j + 1;
        }
        i = i + 1;
    }
    proof {
        assert(found) by {
            assert(spec_has_sample(ts));
        }
    }
    (lo, hi)
}

/// The bounding box of a single-point track set is that point, twice: both
/// corners coincide with it.
pub proof fn lemma_bounding_box_single(pt: TrkPt, lo: Point, hi: Point)
    requires
        spec_is_bounding_box(seq![seq![pt]], lo, hi),
    ensures
        lo == pt.center,
        hi == pt.center,
{
    let ts: Seq<Seq<TrkPt>> = seq![seq![pt]];
    assert(valid_idx(ts, 0, 0));
    assert(ts[0][0] == pt);
    assert(lo.lat <= pt.center.lat && hi.lat >= pt.center.lat);
    assert(lo.lng <= pt.center.lng && hi.lng >= pt.center.lng);
    let (i1, j1) = choose|i: int, j: int|
        valid_idx(ts, i, j) && (#[trigger] ts[i][j]).center.lat == lo.lat;
    assert(i1 == 0 && j1 == 0);
    let (i2, j2) = choose|i: int, j: int|
        valid_idx(ts, i, j) && (#[trigger] ts[i][j]).center.lng == lo.lng;
    assert(i2 == 0 && j2 == 0);
    let (i3, j3) = choose|i: int, j: int|
        valid_idx(ts, i, j) && (#[trigger] ts[i][j]).center.lat == hi.lat;
    assert(i3 == 0 && j3 == 0);
    let (i4, j4) = choose|i: int, j: int|
        valid_idx(ts, i, j) && (#[trigger] ts[i][j]).center.lng == hi.lng;
    assert(i4 == 0 && j4 == 0);
}

/// No track of the set is empty.
pub open spec fn track_set_wf(ts: Seq<Seq<TrkPt>>) -> bool {
    forall|i: int| 0 <= i < ts.len() ==> (#[trigger] ts[i]).len() > 0
}

/// Appends one parsed activity to the aggregate, keeping the invariant that
/// an activity contributing no samples is never inserted.
pub fn push_track(set: &mut Vec<Vec<TrkPt>>, pts: Vec<TrkPt>)
    ensures
        pts@.len() == 0 ==> final(set).deep_view() == old(set).deep_view(),
        pts@.len() > 0 ==> final(set).deep_view() == old(set).deep_view().push(pts@),
        track_set_wf(old(set).deep_view()) ==> track_set_wf(final(set).deep_view()),
{
    let ghost olddv = set.deep_view();
    if pts.len() > 0 {
        let ghost pv = pts@;
        set.push(pts);
        proof {
            assert(set.deep_view() =~~= olddv.push(pv));
        }
    } else {
        proof {
            assert(set.deep_view() =~~= olddv);
        }
    }
}

} // verus!
