//! The decisions of the recursive colour integrator. A path is traced one
//! bounce at a time: while bounces are left, the scene is intersected and
//! the struck material scatters or absorbs; the path ends black when it is
//! absorbed or out of bounces, and in the sky when it escapes the scene.
use vstd::prelude::*;

verus! {

/// What one bounce found in the scene.
#[derive(Clone, Copy, Debug, PartialEq, Eq, Structural)]
pub enum Interaction {
    /// The ray hit nothing.
    Missed,
    /// The ray hit a surface whose material absorbed it.
    Absorbed,
    /// The ray hit a surface whose material sent out a scattered ray.
    Scattered,
}

/// How a path ends.
#[derive(Clone, Copy, Debug, PartialEq, Eq, Structural)]
pub enum Ending {
    /// No light: absorbed, or out of bounces.
    Black,
    /// The background gradient in the direction of the last ray.
    Sky,
}

/// What the integrator does next.
#[derive(Clone, Copy, Debug, PartialEq, Eq, Structural)]
pub enum Step {
    /// Intersect the scene with the current ray, `depth` bounces being left.
    Trace { depth: i32 },
    /// Stop, with the given ending.
    End(Ending),
}

/// A path with bounces left traces; one without is black.
pub open spec fn begin_spec(depth: i32) -> Step {
    if depth <= 0 {
        Step::End(Ending::Black)
    } else {
        Step::Trace { depth }
    }
}

/// After a traced bounce: the sky for a miss, black for an absorption, and
/// for a scattered ray a new start with one bounce fewer.
pub open spec fn after_spec(depth: i32, found: Interaction) -> Step {
    if depth <= 0 {
        Step::End(Ending::Black)
    } else {
        match found {
            Interaction::Missed => Step::End(Ending::Sky),
            Interaction::Absorbed => Step::End(Ending::Black),
            Interaction::Scattered => begin_spec((depth - 1) as i32),
        }
    }
}

/// The first step of a path given a budget of `depth` bounces.
pub fn begin(depth: i32) -> (s: Step)
    ensures
        s == begin_spec(depth),
{
    if depth <= 0 {
        Step::End(Ending::Black)
    } else {
        Step::Trace { depth }
    }
}

/// The step after a bounce that was traced with `depth` bounces left and
/// found `found`; a scattered ray goes on with one bounce fewer.
pub fn after(depth: i32, found: Interaction) -> (s: Step)
    ensures
        s == after_spec(depth, found),
        s matches Step::Trace { depth: d } ==> 0 < d < depth,
{
    if depth <= 0 {
        return Step::End(Ending::Black);
    }
    match found {
        Interaction::Missed => Step::End(Ending::Sky),
        Interaction::Absorbed => Step::End(Ending::Black),
        Interaction::Scattered => begin(depth - 1),
    }
}

/// Where a path ends when, from `step` on, its traced bounces find the
/// entries of `found` in turn: the ending and the number of bounces traced,
/// or `None` if `found` runs out before the path ends.
pub open spec fn run(step: Step, found: Seq<Interaction>) -> Option<(Ending, nat)>
    decreases found.len(),
{
    match step {
        Step::End(e) => Some((e, 0nat)),
        Step::Trace { depth } => if found.len() == 0 {
            None
        } else {
            match run(after_spec(depth, found[0]), found.drop_first()) {
                Some((e, n)) => Some((e, n + 1)),
                None => None,
            }
        },
    }
}

/// A path with no bounces left is black, whatever the ray and the scene,
/// and the scene is not even intersected.
pub proof fn lemma_exhausted_path_is_black(depth: i32, found: Seq<Interaction>)
    requires
        depth <= 0,
    ensures
        begin_spec(depth) == Step::End(Ending::Black),
        run(begin_spec(depth), found) == Some((Ending::Black, 0nat)),
{
}

/// A path started with `depth` bounces traces at most `depth` of them, and
/// has ended once `depth` bounces have been traced.
pub proof fn lemma_path_is_bounded(depth: i32, found: Seq<Interaction>)
    ensures
        run(begin_spec(depth), found) matches Some((_, n)) ==> n <= if depth <= 0 {
            0
        } else {
            depth as int
        },
        found.len() >= depth ==> run(begin_spec(depth), found) is Some,
    decreases found.len(),
{
    if depth > 0 && found.len() > 0 {
        let next = after_spec(depth, found[0]);
        let rest = found.drop_first();
        assert(run(begin_spec(depth), found) == match run(next, rest) {
            Some((e, n)) => Some((e, n + 1)),
            None => None,
        });
        match next {
            Step::Trace { depth: d } => {
                assert(d == depth - 1);
                assert(next == begin_spec(d));
                lemma_path_is_bounded(d, rest);
            },
            Step::End(_) => {},
        }
    }
}

} // verus!
