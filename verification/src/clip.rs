//! Clipping a triangle against the near plane, as a plan: which corners to
//! keep and which edge crossings to add. The crossings themselves are
//! computed by the caller.

use vstd::prelude::*;

verus! {

/// A corner of a clipped triangle.
#[derive(Clone, Copy, Debug, PartialEq, Eq, Structural)]
pub enum ClipVertex {
    /// The input corner with this index (0, 1 or 2), which lies in front of the plane.
    Corner(usize),
    /// The point where the edge from the first corner (in front of the plane)
    /// to the second (behind it) crosses the plane.
    Crossing(usize, usize),
}

/// The indices of the corners in front of the plane, in order.
pub open spec fn front(inside: (bool, bool, bool)) -> Seq<usize> {
    (if inside.0 { seq![0usize] } else { seq![] }) + (if inside.1 { seq![1usize] } else { seq![] }) + (
    if inside.2 {
        seq![2usize]
    } else {
        seq![]
    })
}

/// The indices of the corners behind the plane, in order.
pub open spec fn behind(inside: (bool, bool, bool)) -> Seq<usize> {
    front((!inside.0, !inside.1, !inside.2))
}

/// Whether corner `i` is in front of the plane.
pub open spec fn in_front(inside: (bool, bool, bool), i: usize) -> bool {
    if i == 0 {
        inside.0
    } else if i == 1 {
        inside.1
    } else {
        i == 2 && inside.2
    }
}

/// The triangles that replace a triangle whose corners lie in front of the
/// plane as `inside` says. All in front: the triangle itself. None: nothing.
/// Two (`f0`, `f1`; `b` behind): the quad `f0, f1, f1b, f0b`, cut along
/// `f0 - f1b`. One (`f`; `b0`, `b1` behind): the triangle `f, fb0, fb1`.
pub open spec fn clip_plan_spec(inside: (bool, bool, bool)) -> Seq<(ClipVertex, ClipVertex, ClipVertex)> {
    let f = front(inside);
    let b = behind(inside);
    if f.len() == 3 {
        seq![(ClipVertex::Corner(0), ClipVertex::Corner(1), ClipVertex::Corner(2))]
    } else if f.len() == 2 {
        let p0 = ClipVertex::Crossing(f[0], b[0]);
        let p1 = ClipVertex::Crossing(f[1], b[0]);
        seq![
            (ClipVertex::Corner(f[0]), ClipVertex::Corner(f[1]), p1),
            (ClipVertex::Corner(f[0]), p1, p0),
        ]
    } else if f.len() == 1 {
        seq![(ClipVertex::Corner(f[0]), ClipVertex::Crossing(f[0], b[0]), ClipVertex::Crossing(f[0], b[1]))]
    } else {
        seq![]
    }
}

/// A clip vertex stands for a point in front of the plane or on it: a kept
/// corner is in front, and a crossing joins a corner in front to one behind.
pub open spec fn valid_clip_vertex(inside: (bool, bool, bool), v: ClipVertex) -> bool {
    match v {
        ClipVertex::Corner(i) => i < 3 && in_front(inside, i),
        ClipVertex::Crossing(i, o) => i < 3 && o < 3 && in_front(inside, i) && !in_front(inside, o),
    }
}

/// The plan for clipping a triangle against the near plane, given which of
/// its three corners lie in front of the plane. It holds no triangle when
/// every corner is behind, two when exactly one corner is behind, and one
/// otherwise; every vertex of it is a kept corner in front of the plane or
/// a crossing from a corner in front to one behind.
pub fn clip_plan(inside: (bool, bool, bool)) -> (plan: Vec<(ClipVertex, ClipVertex, ClipVertex)>)
    ensures
        plan@ == clip_plan_spec(inside),
        plan@.len() == (if front(inside).len() == 0 {
            0int
        } else if front(inside).len() == 2 {
            2int
        } else {
            1int
        }),
        forall|k: int|
            0 <= k < plan@.len() ==> {
                let t = #[trigger] plan@[k];
                &&& valid_clip_vertex(inside, t.0)
                &&& valid_clip_vertex(inside, t.1)
                &&& valid_clip_vertex(inside, t.2)
            },
{
    let mut front_idx: Vec<usize> = Vec::new();
    let mut behind_idx: Vec<usize> = Vec::new();
    if inside.0 {
        front_idx.push(0);
    } else {
        behind_idx.push(0);
    }
    if inside.1 {
        front_idx.push(1);
    } else {
        behind_idx.push(1);
    }
    if inside.2 {
        front_idx.push(2);
    } else {
        behind_idx.push(2);
    }
    assert(front_idx@ =~= front(inside));
    assert(behind_idx@ =~= behind(inside));
    let mut plan: Vec<(ClipVertex, ClipVertex, ClipVertex)> = Vec::new();
    if front_idx.len() == 3 {
        plan.push((ClipVertex::Corner(0), ClipVertex::Corner(1), ClipVertex::Corner(2)));
    } else if front_idx.len() == 2 {
        let p0 = ClipVertex::Crossing(front_idx[0], behind_idx[0]);
        let p1 = ClipVertex::Crossing(front_idx[1], behind_idx[0]);
        plan.push((ClipVertex::Corner(front_idx[0]), ClipVertex::Corner(front_idx[1]), p1));
        plan.push((ClipVertex::Corner(front_idx[0]), p1, p0));
    } else if front_idx.len() == 1 {
        let p0 = ClipVertex::Crossing(front_idx[0], behind_idx[0]);
        let p1 = ClipVertex::Crossing(front_idx[0], behind_idx[1]);
        plan.push((ClipVertex::Corner(front_idx[0]), p0, p1));
    }
    assert(plan@ =~= clip_plan_spec(inside));
    plan
}

/// Whether `v` is a vertex of some triangle of `plan`.
pub open spec fn in_plan(plan: Seq<(ClipVertex, ClipVertex, ClipVertex)>, v: ClipVertex) -> bool {
    exists|k: int| 0 <= k < plan.len() && (plan[k].0 == v || plan[k].1 == v || plan[k].2 == v)
}

/// The plan's triangles are spanned by exactly the vertices of the clipped
/// polygon: every corner in front of the plane and every crossing of an edge
/// from a corner in front to one behind, each at least once and nothing else;
/// and no triangle repeats a vertex.
pub proof fn lemma_clip_plan_vertices(inside: (bool, bool, bool))
    ensures
        forall|v: ClipVertex| #[trigger] in_plan(clip_plan_spec(inside), v) <==> valid_clip_vertex(inside, v),
        forall|k: int|
            0 <= k < clip_plan_spec(inside).len() ==> {
                let t = #[trigger] clip_plan_spec(inside)[k];
                t.0 != t.1 && t.1 != t.2 && t.0 != t.2
            },
{
    let plan = clip_plan_spec(inside);
    assert(front(inside) =~= (if inside.0 { seq![0usize] } else { seq![] }) + (if inside.1 {
        seq![1usize]
    } else {
        seq![]
    }) + (if inside.2 { seq![2usize] } else { seq![] }));
    assert forall|v: ClipVertex| valid_clip_vertex(inside, v) implies #[trigger] in_plan(plan, v) by {
        if plan.len() >= 1 {
            let t = plan[0];
            if t.0 == v || t.1 == v || t.2 == v {
                assert(0 <= 0 < plan.len() && (plan[0].0 == v || plan[0].1 == v || plan[0].2 == v));
            }
        }
        if plan.len() >= 2 {
            let t = plan[1];
            if t.0 == v || t.1 == v || t.2 == v {
                assert(0 <= 1 < plan.len() && (plan[1].0 == v || plan[1].1 == v || plan[1].2 == v));
            }
        }
    }
}

} // verus!
