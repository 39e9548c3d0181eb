//! Which of the spheres that a ray meets is the one that is seen.
//!
//! The caller solves each sphere's quadratic in floating point and hands in what
//! came out: the discriminant, and the nearer of the two roots. Whether there is
//! a root at all, whether it lies in the window of accepted distances, and which
//! sphere wins is decided here.

use vstd::prelude::*;
use crate::error::ConfigError;
use crate::scalar::Scalar;
use crate::scalar::INFINITY_BITS;
use crate::scalar::SHADOW_EPSILON_BITS;

verus! {

/// The sphere that a ray hits first, and the distance along the ray.
#[derive(Clone, Copy, Debug)]
pub struct Hit {
    /// The place of the sphere in the scene.
    pub index: usize,
    /// The ray parameter of the intersection.
    pub t: Scalar,
}

/// Positive zero.
pub open spec fn zero() -> Scalar {
    Scalar::of_bits(0)
}

/// The near end of the window of a primary ray, 0.001.
pub open spec fn primary_t_min() -> Scalar {
    Scalar::of_bits(SHADOW_EPSILON_BITS)
}

/// The far end of the window of a primary ray, positive infinity.
pub open spec fn primary_t_max() -> Scalar {
    Scalar::of_bits(INFINITY_BITS)
}

/// A quadratic has real roots unless its discriminant is less than zero.
pub open spec fn real_roots(discriminant: Scalar) -> bool {
    !discriminant.less(zero())
}

/// `t` lies strictly between the ends of the window.
pub open spec fn in_window(t: Scalar, t_min: Scalar, t_max: Scalar) -> bool {
    t_min.less(t) && t.less(t_max)
}

/// The sphere has a near root, and it lies in the window.
pub open spec fn accepted(root: Option<Scalar>, t_min: Scalar, t_max: Scalar) -> bool {
    root matches Some(t) && in_window(t, t_min, t_max)
}

/// No sphere has an accepted root.
pub open spec fn all_missed(roots: Seq<Option<Scalar>>, t_min: Scalar, t_max: Scalar) -> bool {
    forall|i: int| 0 <= i < roots.len() ==> !accepted(#[trigger] roots[i], t_min, t_max)
}

/// Sphere `k` has an accepted root, no sphere has a smaller one, and no sphere
/// before it has one as small.
pub open spec fn is_nearest(
    roots: Seq<Option<Scalar>>,
    t_min: Scalar,
    t_max: Scalar,
    k: int,
) -> bool {
    &&& 0 <= k < roots.len()
    &&& accepted(roots[k], t_min, t_max)
    &&& forall|i: int|
        0 <= i < roots.len() && accepted(#[trigger] roots[i], t_min, t_max) ==> !roots[i]->0.less(
            roots[k]->0,
        )
    &&& forall|i: int|
        0 <= i < k && accepted(#[trigger] roots[i], t_min, t_max) ==> roots[k]->0.less(
            roots[i]->0,
        )
}

/// Whether a sphere's quadratic has real roots, by its discriminant.
pub fn has_real_roots(discriminant: Scalar) -> (r: bool)
    ensures
        r == real_roots(discriminant),
{
    !discriminant.lt(&Scalar::zero())
}

/// A radius must be greater than zero.
pub fn validate_radius(radius: Scalar) -> (r: Result<(), ConfigError>)
    ensures
        r is Ok <==> zero().less(radius),
        r matches Err(e) ==> e == ConfigError::RadiusNotPositive,
{
    if radius.gt(&Scalar::zero()) {
        Ok(())
    } else {
        Err(ConfigError::RadiusNotPositive)
    }
}

/// Every radius of a scene must be greater than zero.
pub fn validate_radii(radii: &Vec<Scalar>) -> (r: Result<(), ConfigError>)
    ensures
        r is Ok <==> forall|i: int| 0 <= i < radii@.len() ==> zero().less(#[trigger] radii@[i]),
        r matches Err(e) ==> e == ConfigError::RadiusNotPositive,
{
    let mut k: usize = 0;
    while k < radii.len()
        invariant
            k <= radii.len(),
            forall|i: int| 0 <= i < k ==> zero().less(#[trigger] radii@[i]),
        decreases radii.len() - k,
    {
        match validate_radius(radii[k]) {
            Ok(()) => {},
            Err(e) => {
                return Err(e);
            },
        }
        k += 1;
    }
    Ok(())
}

/// The nearest hit among the near roots of the spheres, `None` where a sphere
/// has no real root. A root counts when it lies strictly between `t_min` and
/// `t_max`; of two spheres at the same distance the one that comes first in the
/// scene wins.
pub fn nearest_hit(roots: &Vec<Option<Scalar>>, t_min: Scalar, t_max: Scalar) -> (hit: Option<
    Hit,
>)
    ensures
        hit is None <==> all_missed(roots@, t_min, t_max),
        hit matches Some(h) ==> is_nearest(roots@, t_min, t_max, h.index as int),
        hit matches Some(h) ==> roots@[h.index as int] == Some(h.t),
{
    let mut closest_so_far: Scalar = t_max;
    let mut best: Option<usize> = None;
    let mut k: usize = 0;
    while k < roots.len()
        invariant
            k <= roots.len(),
            best is None ==> closest_so_far == t_max,
            best is None ==> all_missed(roots@.take(k as int), t_min, t_max),
            best matches Some(b) ==> b < k && roots@[b as int] == Some(closest_so_far),
            best matches Some(b) ==> is_nearest(roots@.take(k as int), t_min, t_max, b as int),
        decreases roots.len() - k,
    {
        let ghost seen = roots@.take(k as int);
        let ghost next = roots@.take(k + 1);
        assert(forall|i: int| 0 <= i < k ==> next[i] == seen[i]);
        assert(next[k as int] == roots@[k as int]);
        match roots[k] {
            Some(t) => {
                if t.gt(&t_min) && t.lt(&closest_so_far) {
                    closest_so_far = t;
                    best = Some(k);
                }
            },
            None => {},
        }
        k += 1;
    }
    assert(roots@.take(k as int) =~= roots@);
    match best {
        Some(index) => Some(Hit { index, t: closest_so_far }),
        None => None,
    }
}

/// The nearest hit of a primary ray: a root counts beyond 0.001, however far.
pub fn nearest_primary_hit(roots: &Vec<Option<Scalar>>) -> (hit: Option<Hit>)
    ensures
        hit is None <==> all_missed(roots@, primary_t_min(), primary_t_max()),
        hit matches Some(h) ==> is_nearest(
            roots@,
            primary_t_min(),
            primary_t_max(),
            h.index as int,
        ),
        hit matches Some(h) ==> roots@[h.index as int] == Some(h.t),
{
    nearest_hit(roots, Scalar::shadow_epsilon(), Scalar::infinity())
}

/// At most one sphere is the nearest.
pub proof fn lemma_nearest_unique(
    roots: Seq<Option<Scalar>>,
    t_min: Scalar,
    t_max: Scalar,
    j: int,
    k: int,
)
    requires
        is_nearest(roots, t_min, t_max, j),
        is_nearest(roots, t_min, t_max, k),
    ensures
        j == k,
{
}

/// Unless every sphere is missed, one of them is the nearest.
pub proof fn lemma_nearest_exists(roots: Seq<Option<Scalar>>, t_min: Scalar, t_max: Scalar)
    ensures
        all_missed(roots, t_min, t_max) || exists|k: int| is_nearest(roots, t_min, t_max, k),
    decreases roots.len(),
{
    if roots.len() > 0 {
        let before = roots.drop_last();
        let last = roots.len() - 1;
        lemma_nearest_exists(before, t_min, t_max);
        assert(forall|i: int| 0 <= i < last ==> before[i] == roots[i]);
        if all_missed(before, t_min, t_max) {
            if accepted(roots[last], t_min, t_max) {
                assert(is_nearest(roots, t_min, t_max, last));
            }
        } else {
            let k = choose|k: int| is_nearest(before, t_min, t_max, k);
            if accepted(roots[last], t_min, t_max) && roots[last]->0.less(roots[k]->0) {
                assert(is_nearest(roots, t_min, t_max, last));
            } else {
                assert(is_nearest(roots, t_min, t_max, k));
            }
        }
    }
}

/// A ray misses a scene in which no sphere's quadratic has a real root. It
/// misses no other scene, unless every real root there is lies outside the
/// window, as with a sphere behind the ray.
pub proof fn lemma_missed_without_roots(roots: Seq<Option<Scalar>>, t_min: Scalar, t_max: Scalar)
    requires
        (exists|i: int| 0 <= i < roots.len() && (#[trigger] roots[i]) is Some) ==> (exists|i: int|
            0 <= i < roots.len() && accepted(#[trigger] roots[i], t_min, t_max)),
    ensures
        all_missed(roots, t_min, t_max) <==> forall|i: int|
            0 <= i < roots.len() ==> (#[trigger] roots[i]) is None,
{
}

/// The order of the spheres decides nothing but ties: a scene and a reordering
/// of it are missed by the same rays, and where they are hit, they are hit at
/// the same distance.
pub proof fn lemma_nearest_reordered(
    roots: Seq<Option<Scalar>>,
    reordered: Seq<Option<Scalar>>,
    t_min: Scalar,
    t_max: Scalar,
    j: int,
    k: int,
)
    requires
        roots.to_multiset() == reordered.to_multiset(),
    ensures
        all_missed(roots, t_min, t_max) <==> all_missed(reordered, t_min, t_max),
        is_nearest(roots, t_min, t_max, j) && is_nearest(reordered, t_min, t_max, k)
            ==> roots[j]->0.rank() == reordered[k]->0.rank(),
{
    roots.to_multiset_ensures();
    reordered.to_multiset_ensures();
    assert forall|i: int| 0 <= i < roots.len() implies reordered.contains(#[trigger] roots[i]) by {
        assert(roots.contains(roots[i]));
        assert(roots.to_multiset().count(roots[i]) > 0);
    }
    assert forall|i: int| 0 <= i < reordered.len() implies roots.contains(
        #[trigger] reordered[i],
    ) by {
        assert(reordered.contains(reordered[i]));
        assert(reordered.to_multiset().count(reordered[i]) > 0);
    }
    if !all_missed(roots, t_min, t_max) {
        let i = choose|i: int| 0 <= i < roots.len() && accepted(#[trigger] roots[i], t_min, t_max);
        assert(reordered.contains(roots[i]));
    }
    if !all_missed(reordered, t_min, t_max) {
        let i = choose|i: int|
            0 <= i < reordered.len() && accepted(#[trigger] reordered[i], t_min, t_max);
        assert(roots.contains(reordered[i]));
    }
    if is_nearest(roots, t_min, t_max, j) && is_nearest(reordered, t_min, t_max, k) {
        assert(reordered.contains(roots[j]));
        assert(roots.contains(reordered[k]));
    }
}

} // verus!
