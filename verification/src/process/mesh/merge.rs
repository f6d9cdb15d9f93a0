//! Merging the vertices of a triangle list that coincide.

use crate::process::links::{bones_of, link_views};
use crate::process::mesh::{Measure, TriangleList, TriangleVertex, TriangleVertexLink, VertexView};
use crate::process::strips::links_ready;
use vstd::prelude::*;

verus! {

/// Whether two vertices are linked to the same bones, in the same order.
pub open spec fn same_bones(a: TriangleVertex, b: TriangleVertex) -> bool {
    bones_of(link_views(a.links@)) == bones_of(link_views(b.links@))
}

/// Whether two vertices are linked to the same bones, in the same order.
pub fn have_same_bones(a: &TriangleVertex, b: &TriangleVertex) -> (same: bool)
    ensures
        same == same_bones(*a, *b),
{
    if a.links.len() != b.links.len() {
        assert(bones_of(link_views(a.links@)).len() != bones_of(link_views(b.links@)).len());
        return false;
    }
    let mut k: usize = 0;
    while k < a.links.len()
        invariant
            k <= a.links@.len(),
            a.links@.len() == b.links@.len(),
            forall|i: int| 0 <= i < k ==> (#[trigger] a.links@[i]).bone == b.links@[i].bone,
        decreases a.links@.len() - k,
    {
        if a.links[k].bone != b.links[k].bone {
            assert(bones_of(link_views(a.links@))[k as int] != bones_of(link_views(b.links@))[k as int]);
            return false;
        }
        k += 1;
    }
    assert(bones_of(link_views(a.links@)) =~= bones_of(link_views(b.links@)));
    true
}

/// Which vertices of a list stay, and which vertex stands for each.
pub struct VertexMerge {
    /// The vertices that stay, in order.
    pub kept: Vec<usize>,
    /// For each vertex the position in `kept` of the vertex that stands for
    /// it.
    pub remap: Vec<usize>,
}

/// Whether a merge fits a list of vertices: the vertices that stay are in
/// order, each stands for itself, and each vertex is stood for by an earlier
/// one, or by itself, that is linked to the same bones.
pub open spec fn merge_valid(merge: VertexMerge, vertices: Seq<TriangleVertex>) -> bool {
    &&& merge.remap@.len() == vertices.len()
    &&& forall|k: int| 0 <= k < merge.kept@.len() ==> (#[trigger] merge.kept@[k]) < vertices.len()
    &&& forall|j: int, k: int|
        0 <= j < k < merge.kept@.len() ==> (#[trigger] merge.kept@[j]) < (#[trigger] merge.kept@[k])
    &&& forall|v: int| 0 <= v < vertices.len() ==> (#[trigger] merge.remap@[v]) < merge.kept@.len()
    &&& forall|k: int|
        0 <= k < merge.kept@.len() ==> merge.remap@[(#[trigger] merge.kept@[k]) as int] == k
    &&& forall|v: int|
        0 <= v < vertices.len() ==> merge.kept@[(#[trigger] merge.remap@[v]) as int] <= v
            && same_bones(vertices[v], vertices[merge.kept@[merge.remap@[v] as int] as int])
}

/// Whether `found` is the vertex that stands for vertex `candidate`: the
/// first of `near` that is a position of `kept` whose vertex is linked to
/// the bones of the candidate; `None` where `near` has no such position.
pub open spec fn is_first_match(
    found: Option<usize>,
    vertices: Seq<TriangleVertex>,
    candidate: int,
    kept: Seq<usize>,
    near: Seq<usize>,
) -> bool {
    match found {
        Some(position) => exists|i: int|
            0 <= i < near.len() && #[trigger] near[i] == position && matches_candidate(
                vertices,
                candidate,
                kept,
                position,
            ) && forall|j: int|
                0 <= j < i ==> !matches_candidate(vertices, candidate, kept, #[trigger] near[j]),
        None => forall|j: int|
            0 <= j < near.len() ==> !matches_candidate(vertices, candidate, kept, #[trigger] near[j]),
    }
}

/// Whether `position` is a position of `kept` whose vertex is linked to the
/// bones of vertex `candidate`.
pub open spec fn matches_candidate(
    vertices: Seq<TriangleVertex>,
    candidate: int,
    kept: Seq<usize>,
    position: usize,
) -> bool {
    position < kept.len() && same_bones(vertices[candidate], vertices[kept[position as int] as int])
}

/// The first of the positions `near`, from place `from` on, that is a
/// position of `kept` whose vertex is linked to the bones of the candidate.
pub open spec fn first_match_of(
    vertices: Seq<TriangleVertex>,
    candidate: int,
    kept: Seq<usize>,
    near: Seq<usize>,
    from: int,
) -> Option<usize>
    decreases near.len() - from,
{
    if from < 0 || from >= near.len() {
        None
    } else if matches_candidate(vertices, candidate, kept, near[from]) {
        Some(near[from])
    } else {
        first_match_of(vertices, candidate, kept, near, from + 1)
    }
}

/// What the first match is: a position that matches, where there is one
/// from `from` on, and nothing where there is none.
pub proof fn lemma_first_match_of(
    vertices: Seq<TriangleVertex>,
    candidate: int,
    kept: Seq<usize>,
    near: Seq<usize>,
    from: int,
)
    requires
        0 <= from,
    ensures
        match first_match_of(vertices, candidate, kept, near, from) {
            Some(position) => matches_candidate(vertices, candidate, kept, position),
            None => forall|i: int|
                from <= i < near.len() ==> !matches_candidate(
                    vertices,
                    candidate,
                    kept,
                    #[trigger] near[i],
                ),
        },
    decreases near.len() - from,
{
    if from < near.len() && !matches_candidate(vertices, candidate, kept, near[from]) {
        lemma_first_match_of(vertices, candidate, kept, near, from + 1);
    }
}

/// The vertex that stands for vertex `candidate`, out of those that lie
/// where it lies.
pub fn first_match(
    vertices: &Vec<TriangleVertex>,
    candidate: usize,
    kept: &Vec<usize>,
    near: &Vec<usize>,
) -> (found: Option<usize>)
    requires
        candidate < vertices@.len(),
        forall|k: int| 0 <= k < kept@.len() ==> (#[trigger] kept@[k]) < vertices@.len(),
    ensures
        is_first_match(found, vertices@, candidate as int, kept@, near@),
        found == first_match_of(vertices@, candidate as int, kept@, near@, 0),
{
    let mut i: usize = 0;
    while i < near.len()
        invariant
            i <= near@.len(),
            candidate < vertices@.len(),
            forall|k: int| 0 <= k < kept@.len() ==> (#[trigger] kept@[k]) < vertices@.len(),
            first_match_of(vertices@, candidate as int, kept@, near@, 0) == first_match_of(
                vertices@,
                candidate as int,
                kept@,
                near@,
                i as int,
            ),
            forall|j: int|
                0 <= j < i ==> !matches_candidate(
                    vertices@,
                    candidate as int,
                    kept@,
                    #[trigger] near@[j],
                ),
        decreases near@.len() - i,
    {
        let position: usize = near[i];
        if position < kept.len() {
            if have_same_bones(&vertices[candidate], &vertices[kept[position]]) {
                assert(near@[i as int] == position);
                return Some(position);
            }
        }
        i += 1;
    }
    None
}

/// The vertices that stay and, for each vertex, the position of the one
/// that stands for it, after the first `count` vertices, where
/// `answers[v]` lists the positions that were said to coincide with vertex
/// `v`: a vertex goes to its first match, and stays where it has none.
pub open spec fn merge_by(vertices: Seq<TriangleVertex>, answers: Seq<Seq<usize>>, count: int) -> (
    Seq<usize>,
    Seq<usize>,
)
    decreases count,
{
    if count <= 0 {
        (Seq::empty(), Seq::empty())
    } else {
        let before = merge_by(vertices, answers, count - 1);
        match first_match_of(vertices, count - 1, before.0, answers[count - 1], 0) {
            Some(position) => (before.0, before.1.push(position)),
            None => (
                before.0.push((count - 1) as usize),
                before.1.push(before.0.len() as usize),
            ),
        }
    }
}

/// The merge of the first `count` vertices rests on the answers for these
/// vertices alone.
pub proof fn lemma_merge_by_answers(
    vertices: Seq<TriangleVertex>,
    answers: Seq<Seq<usize>>,
    others: Seq<Seq<usize>>,
    count: int,
)
    requires
        forall|v: int| 0 <= v < count ==> #[trigger] answers[v] == others[v],
    ensures
        merge_by(vertices, answers, count) == merge_by(vertices, others, count),
    decreases count,
{
    if count > 0 {
        lemma_merge_by_answers(vertices, answers, others, count - 1);
        assert(answers[count - 1] == others[count - 1]);
    }
}

/// Finds the vertices of a list that can go: a vertex goes where an earlier
/// one that stays coincides with it and is linked to the same bones.
pub fn find_vertex_merge<M: Measure>(vertices: &Vec<TriangleVertex>, measure: &mut M) -> (merge:
    VertexMerge)
    ensures
        merge_valid(merge, vertices@),
        exists|answers: Seq<Seq<usize>>|
            answers.len() == vertices@.len() && #[trigger] merge_by(
                vertices@,
                answers,
                vertices@.len() as int,
            ) == (merge.kept@, merge.remap@),
{
    let mut kept: Vec<usize> = Vec::new();
    let mut remap: Vec<usize> = Vec::new();
    let ghost mut answers: Seq<Seq<usize>> = Seq::empty();
    let mut v: usize = 0;
    while v < vertices.len()
        invariant
            v <= vertices@.len(),
            remap@.len() == v,
            answers.len() == v,
            merge_by(vertices@, answers, v as int) == (kept@, remap@),
            forall|k: int| 0 <= k < kept@.len() ==> (#[trigger] kept@[k]) < v,
            forall|j: int, k: int|
                0 <= j < k < kept@.len() ==> (#[trigger] kept@[j]) < (#[trigger] kept@[k]),
            forall|i: int| 0 <= i < v ==> (#[trigger] remap@[i]) < kept@.len(),
            forall|k: int| 0 <= k < kept@.len() ==> remap@[(#[trigger] kept@[k]) as int] == k,
            forall|i: int|
                0 <= i < v ==> kept@[(#[trigger] remap@[i]) as int] <= i && same_bones(
                    vertices@[i],
                    vertices@[kept@[remap@[i] as int] as int],
                ),
        decreases vertices@.len() - v,
    {
        let near = measure.coinciding(vertices, v, &kept);
        let found = first_match(vertices, v, &kept, &near);
        let ghost kept_before = kept@;
        let ghost remap_before = remap@;
        proof {
            lemma_merge_by_answers(vertices@, answers, answers.push(near@), v as int);
            answers = answers.push(near@);
        }
        match found {
            Some(position) => {
                remap.push(position);
            },
            None => {
                remap.push(kept.len());
                kept.push(v);
            },
        }
        proof {
            assert forall|i: int| 0 <= i < v + 1 implies kept@[(#[trigger] remap@[i]) as int] <= i
                && same_bones(vertices@[i], vertices@[kept@[remap@[i] as int] as int]) by {
                if i < v {
                    assert(remap@[i] == remap_before[i]);
                    assert(kept@[remap@[i] as int] == kept_before[remap_before[i] as int]);
                }
            }
            assert forall|k: int| 0 <= k < kept@.len() implies remap@[(#[trigger] kept@[k]) as int]
                == k by {
                if k < kept_before.len() {
                    assert(kept@[k] == kept_before[k]);
                    assert(remap@[kept@[k] as int] == remap_before[kept_before[k] as int]);
                }
            }
        }
        v += 1;
    }
    VertexMerge { kept, remap }
}

/// Whether the answers are those of a relation between vertices: the
/// positions that are said to coincide with a vertex are those of the
/// vertices that stay, so far, and are alike to it.
pub open spec fn answers_follow(
    vertices: Seq<TriangleVertex>,
    answers: Seq<Seq<usize>>,
    alike: spec_fn(VertexView, VertexView) -> bool,
) -> bool {
    &&& answers.len() == vertices.len()
    &&& forall|v: int, p: usize|
        0 <= v < vertices.len() && p < merge_by(vertices, answers, v).0.len() ==> (
        #[trigger] answers[v].contains(p) <==> alike(
            vertices[merge_by(vertices, answers, v).0[p as int] as int]@,
            vertices[v]@,
        ))
}

/// The positions from 0 up to `count`.
pub open spec fn positions(count: int) -> Seq<usize> {
    Seq::new(count as nat, |k: int| k as usize)
}

/// How a merge grows: the vertices that stay are earlier vertices, and
/// each of them had no match among those that stayed before it.
pub proof fn lemma_merge_by_kept(vertices: Seq<TriangleVertex>, answers: Seq<Seq<usize>>, count: int)
    requires
        0 <= count <= usize::MAX,
    ensures
        forall|j: int|
            0 <= j < merge_by(vertices, answers, count).0.len() ==> {
                let v = #[trigger] merge_by(vertices, answers, count).0[j];
                &&& v < count
                &&& merge_by(vertices, answers, v as int).0 == merge_by(
                    vertices,
                    answers,
                    count,
                ).0.take(j)
                &&& first_match_of(
                    vertices,
                    v as int,
                    merge_by(vertices, answers, v as int).0,
                    answers[v as int],
                    0,
                ) is None
            },
    decreases count,
{
    if count > 0 {
        lemma_merge_by_kept(vertices, answers, count - 1);
        let before = merge_by(vertices, answers, count - 1).0;
        let after = merge_by(vertices, answers, count).0;
        assert forall|j: int| 0 <= j < after.len() implies {
            let v = #[trigger] after[j];
            &&& v < count
            &&& merge_by(vertices, answers, v as int).0 == after.take(j)
            &&& first_match_of(
                vertices,
                v as int,
                merge_by(vertices, answers, v as int).0,
                answers[v as int],
                0,
            ) is None
        } by {
            if j < before.len() {
                assert(after[j] == before[j]);
                assert(after.take(j) =~= before.take(j));
            } else {
                assert(after == before.push((count - 1) as usize));
                assert(after.take(j) =~= before);
            }
        }
    }
}

/// Merging again changes nothing. Where the answers are those of a
/// relation between vertices, the vertices that stay after a merge all
/// stay when they are merged again with answers of the same relation, and
/// each stands for itself: the number of vertices and the indices of the
/// triangles are as they were.
pub proof fn lemma_merge_idempotent(
    vertices: Seq<TriangleVertex>,
    answers: Seq<Seq<usize>>,
    merged: Seq<TriangleVertex>,
    again: Seq<Seq<usize>>,
    alike: spec_fn(VertexView, VertexView) -> bool,
    count: int,
)
    requires
        vertices.len() <= usize::MAX,
        answers_follow(vertices, answers, alike),
        merged.len() == merge_by(vertices, answers, vertices.len() as int).0.len(),
        forall|k: int|
            0 <= k < merged.len() ==> (#[trigger] merged[k])@ == vertices[merge_by(
                vertices,
                answers,
                vertices.len() as int,
            ).0[k] as int]@,
        answers_follow(merged, again, alike),
        0 <= count <= merged.len(),
    ensures
        merge_by(merged, again, count) == (positions(count), positions(count)),
    decreases count,
{
    if count > 0 {
        let j = count - 1;
        lemma_merge_idempotent(vertices, answers, merged, again, alike, j);
        let total = vertices.len() as int;
        let stay = merge_by(vertices, answers, total).0;
        lemma_merge_by_kept(vertices, answers, total);
        let v = stay[j];
        let earlier = merge_by(vertices, answers, v as int).0;
        assert(earlier == stay.take(j));
        lemma_first_match_of(vertices, v as int, earlier, answers[v as int], 0);
        lemma_first_match_of(merged, j, positions(j), again[j], 0);
        if first_match_of(merged, j, positions(j), again[j], 0) is Some {
            let p = first_match_of(merged, j, positions(j), again[j], 0)->Some_0;
            assert(matches_candidate(merged, j, positions(j), p));
            assert(p < j);
            assert(positions(j)[p as int] == p);
            assert(merged[p as int]@ == vertices[stay[p as int] as int]@);
            assert(merged[j]@ == vertices[v as int]@);
            assert(same_bones(vertices[v as int], vertices[stay[p as int] as int]));
            assert(earlier[p as int] == stay[p as int]);
            assert(matches_candidate(vertices, v as int, earlier, p));
            // the position was said to coincide the second time, so the
            // vertices are alike, so it was said the first time
            assert(merge_by(merged, again, j).0 == positions(j));
            lemma_first_match_in(merged, j, positions(j), again[j], 0);
            assert(again[j].contains(p));
            assert(alike(merged[p as int]@, merged[j]@));
            assert(answers[v as int].contains(p));
            let i = choose|i: int| 0 <= i < answers[v as int].len() && answers[v as int][i] == p;
            assert(!matches_candidate(vertices, v as int, earlier, answers[v as int][i]));
        }
        assert(positions(count) =~= positions(j).push(j as usize));
    }
}

/// A first match is one of the positions that were said to coincide.
pub proof fn lemma_first_match_in(
    vertices: Seq<TriangleVertex>,
    candidate: int,
    kept: Seq<usize>,
    near: Seq<usize>,
    from: int,
)
    requires
        0 <= from,
    ensures
        first_match_of(vertices, candidate, kept, near, from) matches Some(position)
            ==> near.contains(position),
    decreases near.len() - from,
{
    if from < near.len() {
        if matches_candidate(vertices, candidate, kept, near[from]) {
            assert(near[from] == near[from]);
        } else {
            lemma_first_match_in(vertices, candidate, kept, near, from + 1);
        }
    }
}

/// A copy of a vertex.
pub fn copy_vertex(vertex: &TriangleVertex) -> (copy: TriangleVertex)
    ensures
        copy@ == vertex@,
{
    let mut links: Vec<TriangleVertexLink> = Vec::new();
    let mut k: usize = 0;
    while k < vertex.links.len()
        invariant
            k <= vertex.links@.len(),
            links@.len() == k,
            forall|i: int|
                0 <= i < k ==> (#[trigger] links@[i]).bone == vertex.links@[i].bone
                    && links@[i].sources@ == vertex.links@[i].sources@,
        decreases vertex.links@.len() - k,
    {
        links.push(
            TriangleVertexLink {
                bone: vertex.links[k].bone,
                sources: vertex.links[k].sources.clone(),
            },
        );
        k += 1;
    }
    assert(link_views(links@) =~= link_views(vertex.links@));
    TriangleVertex { part: vertex.part, vertex: vertex.vertex, links }
}

/// Carries out a merge: the vertices that stay are kept, in order, and every
/// corner of every triangle is moved to the vertex that stands for it.
pub fn apply_vertex_merge(triangle_list: &mut TriangleList, merge: &VertexMerge)
    requires
        old(triangle_list).indices_in_range(),
        merge_valid(*merge, old(triangle_list).vertices@),
    ensures
        final(triangle_list).vertices@.len() == merge.kept@.len(),
        forall|k: int|
            0 <= k < merge.kept@.len() ==> (#[trigger] final(triangle_list).vertices@[k])@ == old(triangle_list).vertices@[merge.kept@[k] as int]@,
        final(triangle_list).triangles@.len() == old(triangle_list).triangles@.len(),
        forall|t: int, c: int|
            0 <= t < old(triangle_list).triangles@.len() && 0 <= c < 3 ==> (#[trigger] final(triangle_list).triangles@[t]@[c]) == merge.remap@[old(triangle_list).triangles@[t]@[c] as int],
        final(triangle_list).indices_in_range(),
        links_ready(old(triangle_list).vertices@) ==> links_ready(final(triangle_list).vertices@),
{
    let ghost before = *triangle_list;
    let mut vertices: Vec<TriangleVertex> = Vec::new();
    let mut k: usize = 0;
    while k < merge.kept.len()
        invariant
            k <= merge.kept@.len(),
            *triangle_list == before,
            merge_valid(*merge, before.vertices@),
            vertices@.len() == k,
            forall|i: int|
                0 <= i < k ==> (#[trigger] vertices@[i])@ == before.vertices@[merge.kept@[i] as int]@,
        decreases merge.kept@.len() - k,
    {
        vertices.push(copy_vertex(&triangle_list.vertices[merge.kept[k]]));
        k += 1;
    }
    let mut triangles: Vec<[usize; 3]> = Vec::new();
    let mut t: usize = 0;
    while t < triangle_list.triangles.len()
        invariant
            t <= before.triangles@.len(),
            *triangle_list == before,
            before.indices_in_range(),
            merge_valid(*merge, before.vertices@),
            triangles@.len() == t,
            forall|i: int, c: int|
                0 <= i < t && 0 <= c < 3 ==> (#[trigger] triangles@[i]@[c])
                    == merge.remap@[before.triangles@[i]@[c] as int],
        decreases before.triangles@.len() - t,
    {
        let triangle: [usize; 3] = triangle_list.triangles[t];
        proof {
            assert(before.triangles@[t as int]@[0] < before.vertices@.len());
            assert(before.triangles@[t as int]@[1] < before.vertices@.len());
            assert(before.triangles@[t as int]@[2] < before.vertices@.len());
        }
        let moved: [usize; 3] = [
            merge.remap[triangle[0]],
            merge.remap[triangle[1]],
            merge.remap[triangle[2]],
        ];
        triangles.push(moved);
        proof {
            assert forall|i: int, c: int| 0 <= i < t + 1 && 0 <= c < 3 implies (
            #[trigger] triangles@[i]@[c]) == merge.remap@[before.triangles@[i]@[c] as int] by {
                if i == t {
                    assert(triangles@[i] == moved);
                }
            }
        }
        t += 1;
    }
    triangle_list.vertices = vertices;
    triangle_list.triangles = triangles;
    proof {
        assert forall|i: int, c: int|
            0 <= i < triangle_list.triangles@.len() && 0 <= c < 3 implies (
        #[trigger] triangle_list.triangles@[i]@[c]) < triangle_list.vertices@.len() by {
            assert(before.triangles@[i]@[c] < before.vertices@.len());
        }
        if links_ready(before.vertices@) {
            let after = triangle_list.vertices@;
            assert forall|v: int| 0 <= v < after.len() implies (#[trigger] after[v]).links@.len()
                <= 3 by {
                let source = before.vertices@[merge.kept@[v] as int];
                assert(after[v]@ == source@);
                assert(link_views(after[v].links@).len() == link_views(source.links@).len());
            }
            assert forall|v: int, k: int|
                0 <= v < after.len() && 0 <= k < after[v].links@.len() implies (
            #[trigger] after[v].links@[k]).bone <= u8::MAX by {
                let source = before.vertices@[merge.kept@[v] as int];
                assert(after[v]@ == source@);
                assert(link_views(after[v].links@).len() == link_views(source.links@).len());
                assert(link_views(after[v].links@)[k] == link_views(source.links@)[k]);
                assert(link_views(source.links@)[k].bone == source.links@[k].bone);
                assert(source.links@[k].bone <= u8::MAX);
            }
        }
    }
}

/// Merges the vertices of a list that coincide and are linked to the same
/// bones, and moves the corners of the triangles to the vertices that are
/// left. Returns which vertices stayed and which vertex stands for each.
pub fn optimize_merge_vertices<M: Measure>(triangle_list: &mut TriangleList, measure: &mut M) -> (merge:
    VertexMerge)
    requires
        old(triangle_list).indices_in_range(),
    ensures
        merge_valid(merge, old(triangle_list).vertices@),
        exists|answers: Seq<Seq<usize>>|
            answers.len() == old(triangle_list).vertices@.len() && #[trigger] merge_by(
                old(triangle_list).vertices@,
                answers,
                old(triangle_list).vertices@.len() as int,
            ) == (merge.kept@, merge.remap@),
        final(triangle_list).vertices@.len() == merge.kept@.len(),
        forall|k: int|
            0 <= k < merge.kept@.len() ==> (#[trigger] final(triangle_list).vertices@[k])@ == old(triangle_list).vertices@[merge.kept@[k] as int]@,
        final(triangle_list).triangles@.len() == old(triangle_list).triangles@.len(),
        forall|t: int, c: int|
            0 <= t < old(triangle_list).triangles@.len() && 0 <= c < 3 ==> (#[trigger] final(triangle_list).triangles@[t]@[c]) == merge.remap@[old(triangle_list).triangles@[t]@[c] as int],
        final(triangle_list).indices_in_range(),
        links_ready(old(triangle_list).vertices@) ==> links_ready(final(triangle_list).vertices@),
{
    let merge = find_vertex_merge(&triangle_list.vertices, measure);
    apply_vertex_merge(triangle_list, &merge);
    merge
}

} // verus!
