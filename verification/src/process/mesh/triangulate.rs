//! Cutting a face into triangles.

use vstd::prelude::*;

verus! {

/// A cost at or above this bound is never chosen as the smallest. It is the
/// largest finite cost: what lies above stands for "infinite" or "undefined".
pub const FAN_COST_LIMIT: u64 = 0x7FEF_FFFF_FFFF_FFFF;

/// Whether `pivot` is the position that a fan is built around: the first
/// position whose cost is below the limit and not above any other cost, or
/// position 0 where no cost is below the limit.
pub open spec fn is_fan_pivot(costs: Seq<u64>, pivot: int) -> bool {
    if exists|i: int| 0 <= i < costs.len() && costs[i] < FAN_COST_LIMIT {
        &&& 0 <= pivot < costs.len()
        &&& costs[pivot] < FAN_COST_LIMIT
        &&& forall|i: int| 0 <= i < costs.len() ==> costs[pivot] <= costs[i]
        &&& forall|i: int| 0 <= i < pivot ==> costs[pivot] < costs[i]
    } else {
        pivot == 0
    }
}

/// One triangle of the fan around `pivot`: the pivot and the two corners that
/// lie `step` and `step + 1` places behind it, counted round the face.
pub open spec fn fan_triangle(face: Seq<usize>, pivot: int, step: int) -> Seq<usize> {
    seq![
        face[pivot],
        face[(pivot + step) % (face.len() as int)],
        face[(pivot + step + 1) % (face.len() as int)],
    ]
}

/// The triangles that a face is cut into. A triangle stays as it is, a
/// quadrilateral is cut along the diagonal between its first and third
/// corner, and a larger face becomes a fan around `pivot`.
pub open spec fn triangulation(face: Seq<usize>, pivot: int) -> Seq<Seq<usize>> {
    if face.len() == 3 {
        seq![seq![face[0], face[1], face[2]]]
    } else if face.len() == 4 {
        seq![seq![face[0], face[1], face[2]], seq![face[2], face[3], face[0]]]
    } else {
        Seq::new((face.len() - 2) as nat, |t: int| fan_triangle(face, pivot, t + 1))
    }
}

/// Whether `corner` is a corner of one of `triangles`.
pub open spec fn is_corner(triangles: Seq<Seq<usize>>, corner: usize) -> bool {
    exists|t: int, c: int|
        0 <= t < triangles.len() && 0 <= c < 3 && #[trigger] triangles[t][c] == corner
}

/// The position to build a fan around, from one cost per corner: the first
/// corner of least cost, as far as that cost is below the limit.
pub fn select_fan_pivot(costs: &Vec<u64>) -> (pivot: usize)
    ensures
        is_fan_pivot(costs@, pivot as int),
{
    let mut pivot: usize = 0;
    let mut least: u64 = FAN_COST_LIMIT;
    let mut i: usize = 0;
    while i < costs.len()
        invariant
            i <= costs.len(),
            least <= FAN_COST_LIMIT,
            least == FAN_COST_LIMIT ==> pivot == 0 && forall|j: int|
                0 <= j < i ==> costs[j] >= FAN_COST_LIMIT,
            least < FAN_COST_LIMIT ==> pivot < i && costs[pivot as int] == least && (forall|j: int|
                0 <= j < i ==> least <= costs[j]) && (forall|j: int|
                0 <= j < pivot ==> least < costs[j]),
        decreases costs.len() - i,
    {
        if costs[i] < least {
            pivot = i;
            least = costs[i];
        }
        i += 1;
    }
    pivot
}

/// Cuts a face into triangles.
pub fn triangulate_face(face: &Vec<usize>, pivot: usize) -> (triangles: Vec<[usize; 3]>)
    requires
        face.len() >= 3,
        pivot < face.len(),
    ensures
        triangles.len() == face.len() - 2,
        forall|t: int| 0 <= t < triangles.len() ==> (#[trigger] triangles[t])@ == triangulation(face@, pivot as int)[t],
        forall|corner: usize|
            face@.contains(corner) <==> exists|t: int, c: int|
                0 <= t < triangles.len() && 0 <= c < 3 && #[trigger] triangles[t]@[c] == corner,
{
    let count: usize = face.len();
    let mut triangles: Vec<[usize; 3]> = Vec::new();
    if count == 3 {
        triangles.push([face[0], face[1], face[2]]);
    } else if count == 4 {
        triangles.push([face[0], face[1], face[2]]);
        triangles.push([face[2], face[3], face[0]]);
    } else {
        let mut step: usize = 1;
        while step < count - 1
            invariant
                count == face.len(),
                count > 4,
                pivot < count,
                1 <= step <= count - 1,
                triangles.len() == step - 1,
                forall|t: int| 0 <= t < triangles.len() ==> (#[trigger] triangles[t])@ == fan_triangle(face@, pivot as int, t + 1),
            decreases count - step,
        {
            let second: usize = wrap_index(pivot, step, count);
            let third: usize = wrap_index(pivot, step + 1, count);
            triangles.push([face[pivot], face[second], face[third]]);
            step += 1;
        }
    }
    proof {
        let cut = triangulation(face@, pivot as int);
        assert forall|t: int| 0 <= t < triangles.len() implies (#[trigger] triangles[t])@ == cut[t] by {}
        lemma_triangulation_covers(face@, pivot as int);
        assert forall|corner: usize|
            face@.contains(corner) <==> exists|t: int, c: int|
                0 <= t < triangles.len() && 0 <= c < 3 && #[trigger] triangles[t]@[c] == corner by {
            if face@.contains(corner) {
                assert(is_corner(cut, corner));
                let (t, c) = choose|t: int, c: int|
                    0 <= t < cut.len() && 0 <= c < 3 && #[trigger] cut[t][c] == corner;
                assert(triangles[t]@[c] == corner);
            }
            if exists|t: int, c: int|
                0 <= t < triangles.len() && 0 <= c < 3 && #[trigger] triangles[t]@[c] == corner {
                let (t, c) = choose|t: int, c: int|
                    0 <= t < triangles.len() && 0 <= c < 3 && #[trigger] triangles[t]@[c] == corner;
                assert(cut[t][c] == corner);
                assert(is_corner(cut, corner));
            }
        }
    }
    triangles
}

/// The position `offset` places behind `start`, counted round `count` places.
fn wrap_index(start: usize, offset: usize, count: usize) -> (position: usize)
    requires
        start < count,
        offset <= count,
    ensures
        position == (start + offset) % (count as int),
        position < count,
{
    if offset >= count - start {
        let position: usize = offset - (count - start);
        assert(start + offset == count + position);
        assert((start + offset) % (count as int) == position) by {
            vstd::arithmetic::div_mod::lemma_fundamental_div_mod_converse(
                start + offset,
                count as int,
                1,
                position as int,
            );
        }
        position
    } else {
        let position: usize = start + offset;
        assert((start + offset) % (count as int) == position) by {
            vstd::arithmetic::div_mod::lemma_small_mod(position as nat, count as nat);
        }
        position
    }
}

/// A triangulation has two triangles fewer than the face has corners, and its
/// triangles have exactly the corners of the face.
pub proof fn lemma_triangulation_covers(face: Seq<usize>, pivot: int)
    requires
        face.len() >= 3,
        0 <= pivot < face.len(),
    ensures
        triangulation(face, pivot).len() == face.len() - 2,
        forall|t: int| 0 <= t < triangulation(face, pivot).len() ==> (#[trigger] triangulation(face, pivot)[t]).len() == 3,
        forall|corner: usize| face.contains(corner) <==> is_corner(triangulation(face, pivot), corner),
{
    let cut = triangulation(face, pivot);
    let n = face.len() as int;
    assert forall|corner: usize| face.contains(corner) implies is_corner(cut, corner) by {
        let i = choose|i: int| 0 <= i < face.len() && face[i] == corner;
        if n == 3 {
            assert(cut[0][i] == corner);
        } else if n == 4 {
            if i < 3 {
                assert(cut[0][i] == corner);
            } else {
                assert(cut[1][1] == corner);
            }
        } else {
            // How far the corner lies behind the pivot, counted round the face.
            let d = if i >= pivot { i - pivot } else { i - pivot + n };
            assert((pivot + d) % n == i) by {
                if i >= pivot {
                    vstd::arithmetic::div_mod::lemma_small_mod(i as nat, n as nat);
                } else {
                    vstd::arithmetic::div_mod::lemma_fundamental_div_mod_converse(pivot + d, n, 1, i);
                }
            }
            if d == 0 {
                assert(cut[0][0] == corner);
            } else if d == n - 1 {
                assert(cut[n - 3] == fan_triangle(face, pivot, n - 2));
                assert(cut[n - 3][2] == corner);
            } else {
                assert(cut[d - 1] == fan_triangle(face, pivot, d));
                assert(cut[d - 1][1] == corner);
            }
        }
    }
    assert forall|corner: usize| is_corner(cut, corner) implies face.contains(corner) by {
        let (t, c) = choose|t: int, c: int|
            0 <= t < cut.len() && 0 <= c < 3 && #[trigger] cut[t][c] == corner;
        if n > 4 {
            assert(cut[t] == fan_triangle(face, pivot, t + 1));
            assert(0 <= (pivot + t + 1) % n < n) by {
                vstd::arithmetic::div_mod::lemma_mod_bound(pivot + t + 1, n);
            }
            assert(0 <= (pivot + t + 2) % n < n) by {
                vstd::arithmetic::div_mod::lemma_mod_bound(pivot + t + 2, n);
            }
        }
    }
}

} // verus!
