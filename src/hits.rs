//! Which intersection a ray takes: the sphere's choice between the two
//! roots of its quadratic, and nearest-hit resolution over a scene.
//!
//! Hit parameters are carried as order keys: integers that compare as the
//! parameters they stand for do. The floating-point root finding happens
//! where the keys are made; the decisions about them are made here.
use vstd::prelude::*;

verus! {

/// The two roots of a sphere's quadratic along a ray, nearer first.
#[derive(Clone, Copy, Debug)]
pub struct Roots {
    near: u64,
    far: u64,
}

impl Roots {
    /// The roots are stored nearer first.
    #[verifier::type_invariant]
    pub closed spec fn wf(self) -> bool {
        self.near <= self.far
    }

    /// The nearer root.
    pub closed spec fn near_spec(self) -> u64 {
        self.near
    }

    /// The farther root.
    pub closed spec fn far_spec(self) -> u64 {
        self.far
    }

    /// The roots `a` and `b`, in either order.
    pub fn new(a: u64, b: u64) -> (r: Roots)
        ensures
            r.wf(),
            r.near_spec() == if a <= b { a } else { b },
            r.far_spec() == if a <= b { b } else { a },
    {
        if a <= b {
            Roots { near: a, far: b }
        } else {
            Roots { near: b, far: a }
        }
    }

    pub fn near(&self) -> (t: u64)
        ensures
            t == self.near_spec(),
    {
        self.near
    }

    pub fn far(&self) -> (t: u64)
        ensures
            t == self.far_spec(),
    {
        self.far
    }
}

/// The nearest accepted intersection in a scene: which primitive, and where.
#[derive(Clone, Copy, Debug, PartialEq, Eq, Structural)]
pub struct Hit {
    pub index: usize,
    pub t: u64,
}

/// `t` lies in the closed interval `[t_min, t_max]`.
pub open spec fn in_range(t: u64, t_min: u64, t_max: u64) -> bool {
    t_min <= t <= t_max
}

/// The root a sphere reports: the nearer one if it lies in `[t_min, t_max]`,
/// else the farther one if that does, else none.
pub open spec fn root_in_range(roots: Roots, t_min: u64, t_max: u64) -> Option<u64> {
    if in_range(roots.near_spec(), t_min, t_max) {
        Some(roots.near_spec())
    } else if in_range(roots.far_spec(), t_min, t_max) {
        Some(roots.far_spec())
    } else {
        None
    }
}

/// The root a primitive reports; `None` stands for a ray that misses it.
pub open spec fn accepted(c: Option<Roots>, t_min: u64, t_max: u64) -> Option<u64> {
    match c {
        Some(roots) => root_in_range(roots, t_min, t_max),
        None => None,
    }
}

/// `h` names the nearest accepted intersection among the first `n`
/// candidates, the earliest of them where several are equally near.
pub open spec fn is_nearest_among(
    candidates: Seq<Option<Roots>>,
    n: int,
    t_min: u64,
    t_max: u64,
    h: Hit,
) -> bool {
    &&& h.index < n
    &&& accepted(candidates[h.index as int], t_min, t_max) == Some(h.t)
    &&& forall|j: int|
        0 <= j < n && #[trigger] accepted(candidates[j], t_min, t_max) is Some ==> h.t
            <= accepted(candidates[j], t_min, t_max)->0
    &&& forall|j: int|
        0 <= j < h.index && #[trigger] accepted(candidates[j], t_min, t_max) is Some ==> h.t
            < accepted(candidates[j], t_min, t_max)->0
}

/// No candidate among the first `n` reports a root.
pub open spec fn none_among(candidates: Seq<Option<Roots>>, n: int, t_min: u64, t_max: u64) -> bool {
    forall|j: int| 0 <= j < n ==> #[trigger] accepted(candidates[j], t_min, t_max) is None
}

/// What nearest-hit resolution over all candidates yields.
pub open spec fn is_resolution(
    candidates: Seq<Option<Roots>>,
    t_min: u64,
    t_max: u64,
    r: Option<Hit>,
) -> bool {
    match r {
        None => none_among(candidates, candidates.len() as int, t_min, t_max),
        Some(h) => is_nearest_among(candidates, candidates.len() as int, t_min, t_max, h),
    }
}

/// `a` and `b` hold the same accepted roots, in any order and number.
pub open spec fn same_roots(
    a: Seq<Option<Roots>>,
    b: Seq<Option<Roots>>,
    t_min: u64,
    t_max: u64,
) -> bool {
    &&& forall|i: int|
        0 <= i < a.len() && #[trigger] accepted(a[i], t_min, t_max) is Some ==> exists|j: int|
            0 <= j < b.len() && #[trigger] accepted(b[j], t_min, t_max) == accepted(
                a[i],
                t_min,
                t_max,
            )
    &&& forall|j: int|
        0 <= j < b.len() && #[trigger] accepted(b[j], t_min, t_max) is Some ==> exists|i: int|
            0 <= i < a.len() && #[trigger] accepted(a[i], t_min, t_max) == accepted(
                b[j],
                t_min,
                t_max,
            )
}

/// The nearest hit's distance does not depend on the order of the scene:
/// two scenes whose primitives accept the same roots resolve to the same
/// distance, or both to no hit.
pub proof fn lemma_nearest_distance_is_order_independent(
    a: Seq<Option<Roots>>,
    b: Seq<Option<Roots>>,
    t_min: u64,
    t_max: u64,
    ra: Option<Hit>,
    rb: Option<Hit>,
)
    requires
        same_roots(a, b, t_min, t_max),
        is_resolution(a, t_min, t_max, ra),
        is_resolution(b, t_min, t_max, rb),
    ensures
        ra is None <==> rb is None,
        ra matches Some(ha) ==> rb matches Some(hb) && ha.t == hb.t,
{
}

/// The sphere's choice of root within `[t_min, t_max]`.
pub fn select_root(roots: &Roots, t_min: u64, t_max: u64) -> (r: Option<u64>)
    ensures
        r == root_in_range(*roots, t_min, t_max),
{
    if t_min <= roots.near && roots.near <= t_max {
        Some(roots.near)
    } else if t_min <= roots.far && roots.far <= t_max {
        Some(roots.far)
    } else {
        None
    }
}

/// Narrowing the upper bound to `bound` keeps a sphere's answer where it
/// lies within the bound and drops it otherwise.
proof fn lemma_narrowed_root(roots: Roots, t_min: u64, bound: u64, t_max: u64)
    requires
        roots.wf(),
        bound <= t_max,
    ensures
        root_in_range(roots, t_min, bound) == match root_in_range(roots, t_min, t_max) {
            Some(t) => if t <= bound { Some(t) } else { None },
            None => None,
        },
{
}

/// Nearest-hit resolution by a single scan with a narrowing bound: each
/// candidate is asked for a root no farther than the nearest one accepted
/// so far, and replaces it only when strictly nearer.
pub fn nearest_hit(candidates: &Vec<Option<Roots>>, t_min: u64, t_max: u64) -> (r: Option<Hit>)
    ensures
        is_resolution(candidates@, t_min, t_max, r),
{
    let mut best: Option<Hit> = None;
    let mut closest: u64 = t_max;
    let n = candidates.len();
    for i in 0..n
        invariant
            n == candidates@.len(),
            closest <= t_max,
            match best {
                None => closest == t_max && none_among(candidates@, i as int, t_min, t_max),
                Some(h) => closest == h.t && is_nearest_among(
                    candidates@,
                    i as int,
                    t_min,
                    t_max,
                    h,
                ),
            },
    {
        if let Some(roots) = &candidates[i] {
            proof {
                use_type_invariant(roots);
                lemma_narrowed_root(*roots, t_min, closest, t_max);
            }
            if let Some(t) = select_root(roots, t_min, closest) {
                let nearer = match best {
                    None => true,
                    Some(_) => t < closest,
                };
                if nearer {
                    best = Some(Hit { index: i, t });
                    closest = t;
                }
            }
        }
    }
    best
}

} // verus!
