use vstd::prelude::*;

verus! {

/// A rigid placement of an item: a translation in integer length units and a
/// rotation in integer angle units.
#[derive(Clone, Copy, Debug, PartialEq, Eq, Structural)]
pub struct Transform {
    pub x: i32,
    pub y: i32,
    pub rot: i32,
}

/// The rotations an item may take.
#[derive(Clone, Debug)]
pub enum RotationRange {
    /// Any rotation is allowed.
    Continuous,
    /// Only the listed rotations are allowed.
    Discrete(Vec<i32>),
}

impl RotationRange {
    pub open spec fn view_rots(&self) -> Option<Seq<i32>> {
        match self {
            RotationRange::Continuous => None,
            RotationRange::Discrete(v) => Some(v@),
        }
    }
}

pub open spec fn rot_dist(a: i32, b: i32) -> int {
    if a >= b {
        a - b
    } else {
        b - a
    }
}

/// The allowed rotation nearest to `r`; among equally near ones, the first listed.
pub open spec fn nearest_rot(r: i32, s: Seq<i32>) -> i32
    decreases s.len(),
{
    if s.len() <= 1 {
        s[0]
    } else {
        let b = nearest_rot(r, s.drop_last());
        if rot_dist(r, s.last()) < rot_dist(r, b) {
            s.last()
        } else {
            b
        }
    }
}

/// The transform with its rotation snapped to the nearest allowed one.
pub open spec fn closest_feasible(t: Transform, rots: Option<Seq<i32>>) -> Transform {
    match rots {
        Some(s) if s.len() > 0 => Transform { rot: nearest_rot(t.rot, s), ..t },
        _ => t,
    }
}

pub proof fn lemma_nearest_rot_is_minimal(r: i32, s: Seq<i32>)
    requires
        s.len() > 0,
    ensures
        s.contains(nearest_rot(r, s)),
        forall|j: int| 0 <= j < s.len() ==> rot_dist(r, nearest_rot(r, s)) <= rot_dist(r, #[trigger] s[j]),
    decreases s.len(),
{
    if s.len() > 1 {
        let p = s.drop_last();
        lemma_nearest_rot_is_minimal(r, p);
        assert forall|j: int| 0 <= j < s.len() implies rot_dist(r, nearest_rot(r, s)) <= rot_dist(r, #[trigger] s[j]) by {
            if j < s.len() - 1 {
                assert(s[j] == p[j]);
            }
        }
        let k = choose|k: int| 0 <= k < p.len() && p[k] == nearest_rot(r, p);
        assert(s[k] == p[k]);
        assert(s[s.len() - 1] == s.last());
    } else {
        assert(s[0] == nearest_rot(r, s));
    }
}

/// Snapping a transform to the closest allowed rotation a second time changes nothing.
pub proof fn lemma_closest_feasible_idempotent(t: Transform, rots: Option<Seq<i32>>)
    ensures
        closest_feasible(closest_feasible(t, rots), rots) == closest_feasible(t, rots),
{
    if let Some(s) = rots {
        if s.len() > 0 {
            let n = nearest_rot(t.rot, s);
            lemma_nearest_rot_is_minimal(t.rot, s);
            lemma_nearest_rot_is_minimal(n, s);
            let k = choose|k: int| 0 <= k < s.len() && s[k] == n;
            assert(rot_dist(n, s[k]) == 0);
        }
    }
}

/// Snaps the rotation of `t` to the nearest rotation that `allowed` admits;
/// continuous ranges (and an empty list) leave the transform as it is.
pub fn convert_sample_to_closest_feasible(t: Transform, allowed: &RotationRange) -> (r: Transform)
    ensures
        r == closest_feasible(t, allowed.view_rots()),
{
    match allowed {
        RotationRange::Continuous => t,
        RotationRange::Discrete(rots) => {
            if rots.len() == 0 {
                return t;
            }
            let mut best: i32 = rots[0];
            let mut best_dist: i64 = if t.rot >= best { t.rot as i64 - best as i64 } else { best as i64 - t.rot as i64 };
            let mut i: usize = 1;
            assert(rots@.take(1).drop_last().len() == 0);
            assert(rots@.take(1) =~= seq![rots@[0]]);
            while i < rots.len()
                invariant
                    1 <= i <= rots.len(),
                    best == nearest_rot(t.rot, rots@.take(i as int)),
                    best_dist == rot_dist(t.rot, best),
                decreases rots.len() - i,
            {
                let c = rots[i];
                let d: i64 = if t.rot >= c { t.rot as i64 - c as i64 } else { c as i64 - t.rot as i64 };
                assert(rots@.take(i as int + 1).drop_last() =~= rots@.take(i as int));
                assert(rots@.take(i as int + 1).last() == c);
                if d < best_dist {
                    best = c;
                    best_dist = d;
                }
                i = i + 1;
            }
            assert(rots@.take(rots.len() as int) =~= rots@);
            Transform { rot: best, ..t }
        },
    }
}

} // verus!
