//! Threshold splitting of a 32-byte key. A share is written as
//! `threshold || x || y`, where `x || y` is a Shamir point over GF(256)
//! with one `y` byte per key byte, so that recovery needs no threshold
//! from elsewhere.
use crate::error::ErrorKind;
use crate::primitives::{deal_shares, distinct_heads, interpolate_shares, shamir_interpolate_of};
use vstd::prelude::*;
use vstd::slice::{slice_subrange, slice_to_vec};

verus! {

/// Smallest threshold that a split accepts.
pub const MIN_THRESHOLD: u8 = 2;

/// The Shamir point carried by a share: everything after the threshold byte.
pub open spec fn point_of(share: Seq<u8>) -> Seq<u8> {
    share.subrange(1, share.len() as int)
}

/// Some point of `points` has `x` as its first byte.
pub open spec fn has_x(points: Seq<Seq<u8>>, x: u8) -> bool {
    exists|k: int| 0 <= k < points.len() && (#[trigger] points[k])[0] == x
}

/// The points of the shares, keeping the first share for each `x`.
pub open spec fn unique_points(shares: Seq<Seq<u8>>) -> Seq<Seq<u8>>
    decreases shares.len(),
{
    if shares.len() == 0 {
        Seq::empty()
    } else {
        let rest = unique_points(shares.drop_last());
        let p = point_of(shares.last());
        if has_x(rest, p[0]) {
            rest
        } else {
            rest.push(p)
        }
    }
}

/// Every share has the first share's length and threshold, carries at
/// least one key byte, and the threshold is at least `MIN_THRESHOLD`.
pub open spec fn shares_well_formed(shares: Seq<Seq<u8>>) -> bool {
    &&& shares.len() > 0
    &&& shares[0].len() >= 3
    &&& shares[0][0] >= MIN_THRESHOLD
    &&& forall|i: int|
        0 <= i < shares.len() ==> (#[trigger] shares[i]).len() == shares[0].len() && shares[i][0] == shares[0][0]
}

/// What recovering a key from shares gives: `InsufficientShares` without
/// shares or with fewer distinct points than the threshold they carry,
/// `BadShare` for shares that do not fit together, else the
/// interpolation of their distinct points.
pub open spec fn recover_spec(shares: Seq<Seq<u8>>) -> Result<Seq<u8>, ErrorKind> {
    if shares.len() == 0 {
        Err(ErrorKind::InsufficientShares)
    } else if !shares_well_formed(shares) {
        Err(ErrorKind::BadShare)
    } else if unique_points(shares).len() < shares[0][0] {
        Err(ErrorKind::InsufficientShares)
    } else {
        Ok(shamir_interpolate_of(unique_points(shares)))
    }
}

/// `sel` takes each of its elements from `shares`, none twice.
pub open spec fn is_selection<T>(sel: Seq<T>, shares: Seq<T>) -> bool {
    &&& forall|j: int| 0 <= j < sel.len() ==> shares.contains(#[trigger] sel[j])
    &&& forall|i: int, j: int| 0 <= i < sel.len() && 0 <= j < sel.len() && i != j ==> sel[i] != sel[j]
}

/// The distinct points of well-formed shares have distinct `x`, each is
/// the point of one of the shares, and they are as long as those points.
proof fn lemma_unique_points(shares: Seq<Seq<u8>>, len: int)
    requires
        forall|i: int| 0 <= i < shares.len() ==> (#[trigger] shares[i]).len() == len,
        len >= 2,
    ensures
        distinct_heads(unique_points(shares)),
        forall|k: int| 0 <= k < unique_points(shares).len() ==> (#[trigger] unique_points(shares)[k]).len() == len - 1,
        forall|k: int|
            0 <= k < unique_points(shares).len() ==> exists|i: int|
                0 <= i < shares.len() && #[trigger] unique_points(shares)[k] == point_of(#[trigger] shares[i]),
    decreases shares.len(),
{
    if shares.len() > 0 {
        let prefix = shares.drop_last();
        assert forall|i: int| 0 <= i < prefix.len() implies (#[trigger] prefix[i]).len() == len by {
            assert(prefix[i] == shares[i]);
        }
        lemma_unique_points(prefix, len);
        let rest = unique_points(prefix);
        let p = point_of(shares.last());
        let u = unique_points(shares);
        assert forall|k: int| 0 <= k < u.len() implies exists|i: int|
            0 <= i < shares.len() && #[trigger] u[k] == point_of(#[trigger] shares[i]) by {
            if k < rest.len() {
                let i = choose|i: int| 0 <= i < prefix.len() && rest[k] == point_of(#[trigger] prefix[i]);
                assert(prefix[i] == shares[i]);
                assert(u[k] == point_of(shares[i]));
            } else {
                assert(u[k] == point_of(shares[shares.len() - 1]));
            }
        }
        if !has_x(rest, p[0]) {
            assert forall|i: int, j: int| 0 <= i < u.len() && 0 <= j < u.len() && i != j implies u[i][0] != u[j][0] by {
                if i < rest.len() && j < rest.len() {
                } else if i < rest.len() {
                    assert(u[j] == p);
                    assert(rest[i] == u[i]);
                } else {
                    assert(u[i] == p);
                    assert(rest[j] == u[j]);
                }
            }
        }
    }
}

/// Shares whose `x` are pairwise distinct have all their points distinct.
proof fn lemma_unique_points_of_distinct(sel: Seq<Seq<u8>>)
    requires
        forall|i: int| 0 <= i < sel.len() ==> (#[trigger] sel[i]).len() >= 2,
        forall|i: int, j: int| 0 <= i < sel.len() && 0 <= j < sel.len() && i != j ==> sel[i][1] != sel[j][1],
    ensures
        unique_points(sel) == sel.map_values(|s: Seq<u8>| point_of(s)),
    decreases sel.len(),
{
    if sel.len() > 0 {
        let prefix = sel.drop_last();
        lemma_unique_points_of_distinct(prefix);
        let rest = unique_points(prefix);
        let p = point_of(sel.last());
        if has_x(rest, p[0]) {
            let k = choose|k: int| 0 <= k < rest.len() && (#[trigger] rest[k])[0] == p[0];
            assert(rest[k] == point_of(prefix[k]));
            assert(prefix[k] == sel[k]);
            assert(sel[k][1] == sel[sel.len() - 1][1]);
        }
        assert(unique_points(sel) =~= sel.map_values(|s: Seq<u8>| point_of(s)));
    }
}

/// Accepts `2 <= threshold <= total`; `BadParams` otherwise.
pub fn validate_params(threshold: u8, total: u8) -> (r: Result<(), ErrorKind>)
    ensures
        r is Ok <==> MIN_THRESHOLD <= threshold <= total,
        r matches Err(e) ==> e == ErrorKind::BadParams,
{
    if threshold > total || threshold < MIN_THRESHOLD {
        Err(ErrorKind::BadParams)
    } else {
        Ok(())
    }
}

/// Splits a 32-byte secret into `total` shares, `threshold` of which
/// recover it, drawing the polynomials from a generator seeded with
/// `seed`. Share `i` carries the threshold and the point `x = i + 1`.
/// Any selection of at least `threshold` distinct shares recovers the
/// secret; any non-empty selection of fewer fails with
/// `InsufficientShares`.
pub fn split_secret(secret: &[u8; 32], threshold: u8, total: u8, seed: &[u8; 32]) -> (r: Result<Vec<Vec<u8>>, ErrorKind>)
    ensures
        match r {
            Ok(shares) => {
                &&& MIN_THRESHOLD <= threshold <= total
                &&& shares@.len() == total
                &&& forall|i: int|
                    0 <= i < total ==> (#[trigger] shares@[i])@.len() == 34 && shares@[i]@[0] == threshold
                        && shares@[i]@[1] == i + 1
                &&& forall|sel: Seq<Seq<u8>>|
                    #![trigger recover_spec(sel)]
                    is_selection(sel, shares.deep_view()) && sel.len() >= threshold
                        ==> recover_spec(sel) == Ok::<Seq<u8>, ErrorKind>(secret@)
                &&& forall|sel: Seq<Seq<u8>>|
                    #![trigger recover_spec(sel)]
                    is_selection(sel, shares.deep_view()) && sel.len() < threshold
                        ==> recover_spec(sel) == Err::<Seq<u8>, ErrorKind>(ErrorKind::InsufficientShares)
            },
            Err(e) => e == ErrorKind::BadParams && !(MIN_THRESHOLD <= threshold <= total),
        },
{
    validate_params(threshold, total)?;
    let raw = deal_shares(threshold, secret.as_slice(), total, seed);
    let mut shares: Vec<Vec<u8>> = Vec::new();
    let mut i: usize = 0;
    while i < total as usize
        invariant
            i <= total,
            raw@.len() == total,
            shares@.len() == i,
            forall|k: int| 0 <= k < total ==> (#[trigger] raw@[k])@.len() == 33 && raw@[k]@[0] == k + 1,
            forall|k: int| 0 <= k < i ==> (#[trigger] shares@[k])@ == seq![threshold] + raw@[k]@,
        decreases total - i,
    {
        let mut share: Vec<u8> = Vec::new();
        share.push(threshold);
        share.extend_from_slice(raw[i].as_slice());
        assert(share@ =~= seq![threshold] + raw@[i as int]@);
        shares.push(share);
        i = i + 1;
    }
    let ghost dv = shares.deep_view();
    assert forall|k: int| 0 <= k < total implies point_of(#[trigger] dv[k]) == raw@[k]@ by {
        assert(point_of(dv[k]) =~= raw@[k]@);
    }
    assert forall|sel: Seq<Seq<u8>>| #![trigger recover_spec(sel)] is_selection(sel, dv) implies {
        &&& sel.len() >= threshold ==> recover_spec(sel) == Ok::<Seq<u8>, ErrorKind>(secret@)
        &&& sel.len() < threshold ==> recover_spec(sel) == Err::<Seq<u8>, ErrorKind>(ErrorKind::InsufficientShares)
    } by {
        // Each selected share is share `idx(j)` of the split.
        assert forall|j: int| 0 <= j < sel.len() implies exists|k: int| 0 <= k < total && #[trigger] sel[j] == dv[k] by {
            assert(dv.contains(sel[j]));
        }
        assert forall|i1: int, j1: int| 0 <= i1 < sel.len() && 0 <= j1 < sel.len() && i1 != j1 implies sel[i1][1] != sel[j1][1] by {
            let a = choose|k: int| 0 <= k < total && #[trigger] sel[i1] == dv[k];
            let b = choose|k: int| 0 <= k < total && #[trigger] sel[j1] == dv[k];
            assert(sel[i1] != sel[j1]);
        }
        assert forall|j: int| 0 <= j < sel.len() implies (#[trigger] sel[j]).len() >= 2 by {
            let a = choose|k: int| 0 <= k < total && #[trigger] sel[j] == dv[k];
        }
        lemma_unique_points_of_distinct(sel);
        let pts = sel.map_values(|s: Seq<u8>| point_of(s));
        if sel.len() > 0 {
            let a0 = choose|k: int| 0 <= k < total && #[trigger] sel[0] == dv[k];
            assert forall|j: int| 0 <= j < sel.len() implies (#[trigger] sel[j]).len() == sel[0].len() && sel[j][0] == sel[0][0] by {
                let a = choose|k: int| 0 <= k < total && #[trigger] sel[j] == dv[k];
            }
            assert(shares_well_formed(sel));
        }
        if sel.len() >= threshold {
            assert forall|j: int| 0 <= j < pts.len() implies raw.deep_view().contains(#[trigger] pts[j]) by {
                let a = choose|k: int| 0 <= k < total && #[trigger] sel[j] == dv[k];
                assert(pts[j] == raw@[a]@);
                assert(raw.deep_view()[a] == raw@[a]@);
            }
            assert(distinct_heads(pts)) by {
                assert forall|i1: int, j1: int| 0 <= i1 < pts.len() && 0 <= j1 < pts.len() && i1 != j1 implies pts[i1][0] != pts[j1][0] by {
                    assert(pts[i1][0] == sel[i1][1]);
                    assert(pts[j1][0] == sel[j1][1]);
                }
            }
            assert(shamir_interpolate_of(pts) == secret@);
        }
    }
    Ok(shares)
}

/// Recovers a key from shares given in any order; repeated shares are
/// ignored. `InsufficientShares` without shares or with fewer distinct
/// points than their threshold; `BadShare` for shares that do not fit
/// together.
pub fn recover_secret(shares: &Vec<Vec<u8>>) -> (r: Result<Vec<u8>, ErrorKind>)
    ensures
        match r {
            Ok(s) => recover_spec(shares.deep_view()) == Ok::<Seq<u8>, ErrorKind>(s@),
            Err(e) => recover_spec(shares.deep_view()) == Err::<Seq<u8>, ErrorKind>(e),
        },
{
    let ghost dv = shares.deep_view();
    if shares.len() == 0 {
        return Err(ErrorKind::InsufficientShares);
    }
    let len = shares[0].len();
    if len < 3 {
        return Err(ErrorKind::BadShare);
    }
    let threshold = shares[0][0];
    if threshold < MIN_THRESHOLD {
        return Err(ErrorKind::BadShare);
    }
    let mut i: usize = 0;
    while i < shares.len()
        invariant
            dv == shares.deep_view(),
            len == dv[0].len(),
            len >= 3,
            threshold == dv[0][0],
            i <= shares.len(),
            forall|k: int| 0 <= k < i ==> (#[trigger] dv[k]).len() == len && dv[k][0] == threshold,
        decreases shares.len() - i,
    {
        assert(dv[i as int] == shares@[i as int]@);
        if shares[i].len() != len || shares[i][0] != threshold {
            return Err(ErrorKind::BadShare);
        }
        i = i + 1;
    }
    assert(shares_well_formed(dv));
    let mut points: Vec<Vec<u8>> = Vec::new();
    let mut i: usize = 0;
    while i < shares.len()
        invariant
            dv == shares.deep_view(),
            shares_well_formed(dv),
            len == dv[0].len(),
            len >= 3,
            i <= shares.len(),
            points.deep_view() == unique_points(dv.subrange(0, i as int)),
        decreases shares.len() - i,
    {
        let ghost pre = dv.subrange(0, i as int);
        let ghost next = dv.subrange(0, i as int + 1);
        proof {
            assert(next.drop_last() =~= pre);
            assert forall|m: int| 0 <= m < pre.len() implies (#[trigger] pre[m]).len() == len by {
                assert(pre[m] == dv[m]);
            }
            lemma_unique_points(pre, len as int);
            assert(dv[i as int] == shares@[i as int]@);
            assert(dv[i as int].len() == len);
        }
        let x = shares[i][1];
        let mut found = false;
        let mut k: usize = 0;
        while k < points.len()
            invariant
                dv == shares.deep_view(),
                points.deep_view() == unique_points(pre),
                forall|m: int| 0 <= m < points@.len() ==> (#[trigger] points.deep_view()[m]).len() == len - 1,
                len >= 3,
                k <= points.len(),
                i < dv.len(),
                dv[i as int].len() == len,
                x == dv[i as int][1],
                found ==> has_x(unique_points(pre), x),
                !found ==> forall|m: int| 0 <= m < k ==> (#[trigger] points.deep_view()[m])[0] != x,
            decreases points.len() - k,
        {
            assert(points.deep_view()[k as int] == points@[k as int]@);
            if points[k][0] == x {
                found = true;
            }
            k = k + 1;
        }
        proof {
            assert(next.last() == dv[i as int]);
            assert(point_of(next.last())[0] == x);
        }
        if !found {
            let p = slice_to_vec(slice_subrange(shares[i].as_slice(), 1, len));
            proof {
                assert(!has_x(unique_points(pre), x));
                assert(p@ =~= point_of(next.last()));
            }
            let ghost before = points.deep_view();
            let ghost before_vec = points@;
            proof {
                assert(unique_points(next) == unique_points(pre).push(point_of(next.last())));
            }
            points.push(p);
            proof {
                assert forall|j: int| 0 <= j < points@.len() implies points.deep_view()[j] == before.push(p@)[j] by {
                    if j < before.len() {
                        assert(points@[j] == before_vec[j]);
                    }
                }
                assert(points.deep_view() =~= unique_points(next));
            }
        }
        i = i + 1;
    }
    assert(dv.subrange(0, shares.len() as int) =~= dv);
    proof {
        lemma_unique_points(dv, len as int);
    }
    if points.len() < threshold as usize {
        return Err(ErrorKind::InsufficientShares);
    }
    proof {
        assert(points.deep_view()[0] == points@[0]@);
        assert forall|m: int| 0 <= m < points@.len() implies (#[trigger] points@[m])@.len() == points@[0]@.len() by {
            assert(points.deep_view()[m] == points@[m]@);
        }
    }
    Ok(interpolate_shares(threshold, &points))
}

} // verus!
