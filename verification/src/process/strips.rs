//! Strip partitioning: a triangle list is cut into meshes, each of which fits
//! one 16-bit index space and one bone palette.

use crate::ordered::{
    index_map_entries, index_map_get, index_map_insert, index_map_new, index_set_get_index,
    index_set_insert_full, index_set_items, index_set_len, index_set_new,
    index_set_get_index_of,
};
use crate::process::mesh::TriangleList;
use crate::process::{
    HardwareBone, Mesh, MeshVertex, Strip, StripGroup, Vertex, MAX_HARDWARE_BONES_PER_STRIP,
    MAX_STRIP_GROUP_VERTICES,
};
use indexmap::IndexMap;
use indexmap::IndexSet;
use vstd::prelude::*;

verus! {

/// `items` with `item` appended, unless it is there already.
pub open spec fn push_unique(items: Seq<usize>, item: usize) -> Seq<usize> {
    if items.contains(item) {
        items
    } else {
        items.push(item)
    }
}

/// `items` with each of `more` appended in turn, unless it is there already.
pub open spec fn extend_unique(items: Seq<usize>, more: Seq<usize>) -> Seq<usize>
    decreases more.len(),
{
    if more.len() == 0 {
        items
    } else {
        push_unique(extend_unique(items, more.drop_last()), more.last())
    }
}

/// How many of `items`, counted as often as they occur, are not in `present`.
pub open spec fn count_absent(items: Seq<usize>, present: Seq<usize>) -> nat
    decreases items.len(),
{
    if items.len() == 0 {
        0
    } else {
        count_absent(items.drop_last(), present) + if present.contains(items.last()) {
            0nat
        } else {
            1nat
        }
    }
}

/// The bones of the links of the vertices `corners`, one vertex after the
/// other.
pub open spec fn gather_bones(links: Seq<Seq<usize>>, corners: Seq<usize>) -> Seq<usize>
    decreases corners.len(),
{
    if corners.len() == 0 {
        Seq::empty()
    } else {
        gather_bones(links, corners.drop_last()) + links[corners.last() as int]
    }
}

/// What a mesh holds, as far as the partition decides it.
pub struct MeshModel {
    /// The vertices of the triangle list that the mesh uses, in order of
    /// first use.
    pub vertices: Seq<usize>,
    /// For each corner of each triangle, the position of its vertex in
    /// `vertices`.
    pub indices: Seq<int>,
    /// The bones that the vertices are linked to, in order of first use.
    pub bones: Seq<usize>,
    /// The largest number of links of any vertex.
    pub bone_count: int,
}

/// A mesh without triangles.
pub open spec fn empty_model() -> MeshModel {
    MeshModel { vertices: Seq::empty(), indices: Seq::empty(), bones: Seq::empty(), bone_count: 0 }
}

/// The mesh after one more corner. A vertex that the mesh has is referred to
/// again; a new one is appended, and so are those of its bones that the
/// palette lacks.
pub open spec fn add_corner(model: MeshModel, links: Seq<Seq<usize>>, corner: usize) -> MeshModel {
    if model.vertices.contains(corner) {
        MeshModel { indices: model.indices.push(model.vertices.index_of(corner)), ..model }
    } else {
        MeshModel {
            vertices: model.vertices.push(corner),
            indices: model.indices.push(model.vertices.len() as int),
            bones: extend_unique(model.bones, links[corner as int]),
            bone_count: if links[corner as int].len() > model.bone_count {
                links[corner as int].len() as int
            } else {
                model.bone_count
            },
        }
    }
}

/// The mesh after the corners `corners`, in order.
pub open spec fn add_corners(model: MeshModel, links: Seq<Seq<usize>>, corners: Seq<usize>) -> MeshModel
    decreases corners.len(),
{
    if corners.len() == 0 {
        model
    } else {
        add_corner(add_corners(model, links, corners.drop_last()), links, corners.last())
    }
}

/// Whether a triangle has to start a new mesh: its distinct corners that the
/// mesh lacks would take the vertices beyond the index space, or the bones of
/// its distinct corners that the palette lacks, each counted as often as it
/// is linked, would take the palette beyond its size, or its three indices
/// would take the strip beyond what its 32-bit index count can say.
pub open spec fn must_split(model: MeshModel, links: Seq<Seq<usize>>, triangle: Seq<usize>) -> bool {
    let distinct = extend_unique(Seq::empty(), triangle);
    ||| model.vertices.len() + count_absent(distinct, model.vertices) > MAX_STRIP_GROUP_VERTICES
    ||| model.bones.len() + count_absent(gather_bones(links, distinct), model.bones)
        > MAX_HARDWARE_BONES_PER_STRIP
    ||| model.indices.len() + 3 > i32::MAX
}

/// The meshes that are complete, and the one under construction, after the
/// first `count` triangles.
pub open spec fn partition(links: Seq<Seq<usize>>, triangles: Seq<Seq<usize>>, count: nat) -> (
    Seq<MeshModel>,
    MeshModel,
)
    decreases count,
{
    if count == 0 {
        (Seq::empty(), empty_model())
    } else {
        let (closed, open) = partition(links, triangles, (count - 1) as nat);
        let triangle = triangles[count - 1];
        if must_split(open, links, triangle) {
            (closed.push(open), add_corners(empty_model(), links, triangle))
        } else {
            (closed, add_corners(open, links, triangle))
        }
    }
}

/// The meshes that a triangle list is cut into.
pub open spec fn mesh_models(links: Seq<Seq<usize>>, triangles: Seq<Seq<usize>>) -> Seq<MeshModel> {
    let (closed, open) = partition(links, triangles, triangles.len());
    closed.push(open)
}

/// What holds of every mesh that is built corner by corner: no vertex and no
/// bone twice, every vertex one of the list, every index pointing at a vertex.
pub open spec fn model_sound(model: MeshModel, links: Seq<Seq<usize>>) -> bool {
    &&& model.vertices.no_duplicates()
    &&& model.bones.no_duplicates()
    &&& 0 <= model.bone_count <= 3
    &&& forall|j: int| 0 <= j < model.vertices.len() ==> (#[trigger] model.vertices[j]) < links.len()
    &&& forall|i: int|
        0 <= i < model.indices.len() ==> 0 <= (#[trigger] model.indices[i]) < model.vertices.len()
}

/// What the partition keeps true of every mesh: it is sound, its vertices fit
/// the index space, its bones fit the palette, and the number of its indices
/// fits 32 bits.
pub open spec fn model_within_limits(model: MeshModel, links: Seq<Seq<usize>>) -> bool {
    &&& model_sound(model, links)
    &&& model.vertices.len() <= MAX_STRIP_GROUP_VERTICES
    &&& model.bones.len() <= MAX_HARDWARE_BONES_PER_STRIP
    &&& model.indices.len() <= i32::MAX
}

/// Whether no vertex has more than three links.
pub open spec fn at_most_three_links(links: Seq<Seq<usize>>) -> bool {
    forall|v: int| 0 <= v < links.len() ==> (#[trigger] links[v]).len() <= 3
}

/// Whether every triangle has three corners, each a vertex of the list.
pub open spec fn triangles_in_range(links: Seq<Seq<usize>>, triangles: Seq<Seq<usize>>) -> bool {
    forall|t: int|
        0 <= t < triangles.len() ==> (#[trigger] triangles[t]).len() == 3 && forall|c: int|
            0 <= c < 3 ==> (#[trigger] triangles[t][c]) < links.len()
}

/// Whether the entries for link `k` of a vertex are right: the bone of the
/// link and the palette slot that holds this bone, or zeros where the vertex
/// has no such link.
pub open spec fn link_placed(
    bone: u8,
    slot: u8,
    k: int,
    bones: Seq<usize>,
    palette: Seq<usize>,
) -> bool {
    if k < bones.len() {
        &&& bone == bones[k]
        &&& slot < palette.len()
        &&& palette[slot as int] == bones[k]
    } else {
        bone == 0 && slot == 0
    }
}

/// Whether the vertex at position `j` of a mesh is the one that the model
/// has there: made from that vertex of the triangle list, with its bones, and
/// with the palette slots that hold those bones.
pub open spec fn vertex_matches(
    vertex: Vertex,
    mesh_vertex: MeshVertex,
    j: int,
    model: MeshModel,
    links: Seq<Seq<usize>>,
) -> bool {
    let bones = links[model.vertices[j] as int];
    &&& vertex.source == model.vertices[j]
    &&& vertex.bone_count == bones.len()
    &&& mesh_vertex.bone_count == bones.len()
    &&& mesh_vertex.vertex_index == j
    &&& link_placed(vertex.bones@[0], mesh_vertex.bones@[0], 0, bones, model.bones)
    &&& link_placed(vertex.bones@[1], mesh_vertex.bones@[1], 1, bones, model.bones)
    &&& link_placed(vertex.bones@[2], mesh_vertex.bones@[2], 2, bones, model.bones)
}

/// Whether the parts of a mesh are what the model says.
pub open spec fn parts_match(
    vertex_data: Seq<Vertex>,
    vertices: Seq<MeshVertex>,
    indices: Seq<u16>,
    strip: Strip,
    model: MeshModel,
    links: Seq<Seq<usize>>,
) -> bool {
    &&& vertex_data.len() == model.vertices.len()
    &&& vertices.len() == model.vertices.len()
    &&& forall|j: int|
        0 <= j < model.vertices.len() ==> vertex_matches(
            #[trigger] vertex_data[j],
            vertices[j],
            j,
            model,
            links,
        )
    &&& indices.len() == model.indices.len()
    &&& forall|i: int| 0 <= i < model.indices.len() ==> (#[trigger] indices[i]) == model.indices[i]
    &&& strip.indices_count == model.indices.len()
    &&& strip.indices_offset == 0
    &&& strip.vertex_count == model.vertices.len()
    &&& strip.vertex_offset == 0
    &&& strip.bone_count == model.bone_count
    &&& strip.hardware_bones@.len() == model.bones.len()
    &&& forall|i: int|
        0 <= i < model.bones.len() ==> (#[trigger] strip.hardware_bones@[i]).hardware_bone == i
            && strip.hardware_bones@[i].bone_table_bone == model.bones[i]
}

/// Whether a mesh is what the model says: the material, one strip group with
/// one strip, and their parts.
pub open spec fn mesh_matches(
    mesh: Mesh,
    model: MeshModel,
    material: int,
    links: Seq<Seq<usize>>,
) -> bool {
    &&& mesh.material == material
    &&& mesh.strip_groups@.len() == 1
    &&& mesh.strip_groups@[0].strips@.len() == 1
    &&& parts_match(
        mesh.vertex_data@,
        mesh.strip_groups@[0].vertices@,
        mesh.strip_groups@[0].indices@,
        mesh.strip_groups@[0].strips@[0],
        model,
        links,
    )
}

/// Whether every vertex has at most three links, to bones that fit a byte.
pub open spec fn links_ready(vertices: Seq<crate::process::mesh::TriangleVertex>) -> bool {
    &&& forall|v: int| 0 <= v < vertices.len() ==> (#[trigger] vertices[v]).links@.len() <= 3
    &&& forall|v: int, k: int|
        0 <= v < vertices.len() && 0 <= k < vertices[v].links@.len() ==> (
        #[trigger] vertices[v].links@[k]).bone <= u8::MAX
}

/// Whether a triangle list can be cut into strips: its triangles refer to its
/// vertices, and every vertex has at most three links, to bones that fit a
/// byte.
pub open spec fn ready_for_strips(list: TriangleList) -> bool {
    &&& list.indices_in_range()
    &&& links_ready(list.vertices@)
}

/// Whether `short` is the beginning of `long`.
pub open spec fn is_prefix(short: Seq<usize>, long: Seq<usize>) -> bool {
    &&& short.len() <= long.len()
    &&& forall|i: int| 0 <= i < short.len() ==> short[i] == long[i]
}

/// Appending without repetition keeps what was there in place and adds only
/// items of `more`; what was free of repetitions stays so.
pub proof fn lemma_extend_unique(items: Seq<usize>, more: Seq<usize>)
    ensures
        is_prefix(items, extend_unique(items, more)),
        forall|x: usize|
            extend_unique(items, more).contains(x) <==> items.contains(x) || more.contains(x),
        items.no_duplicates() ==> extend_unique(items, more).no_duplicates(),
        extend_unique(items, more).len() <= items.len() + count_absent(more, items),
        count_absent(more, items) <= more.len(),
    decreases more.len(),
{
    if more.len() > 0 {
        let init = more.drop_last();
        let last = more.last();
        lemma_extend_unique(items, init);
        let before = extend_unique(items, init);
        let after = extend_unique(items, more);
        assert(after == push_unique(before, last));
        assert forall|x: usize| after.contains(x) <==> items.contains(x) || more.contains(x) by {
            if more.contains(x) {
                let i = choose|i: int| 0 <= i < more.len() && more[i] == x;
                if i < init.len() {
                    assert(init[i] == x);
                    assert(init.contains(x));
                }
            }
            if init.contains(x) {
                let i = choose|i: int| 0 <= i < init.len() && init[i] == x;
                assert(more[i] == x);
            }
            assert(more[more.len() - 1] == last);
            if before.contains(x) {
                let i = choose|i: int| 0 <= i < before.len() && before[i] == x;
                assert(after[i] == x);
            }
            if after.contains(x) && !before.contains(x) {
                let i = choose|i: int| 0 <= i < after.len() && after[i] == x;
                if i < before.len() {
                    assert(before[i] == x);
                }
            }
            if x == last && !before.contains(last) {
                assert(after[before.len() as int] == last);
            }
        }
        if items.no_duplicates() && !before.contains(last) {
            assert forall|i: int, j: int|
                0 <= i < after.len() && 0 <= j < after.len() && i != j implies after[i]
                != after[j] by {
                if i < before.len() {
                    assert(before.contains(before[i]));
                }
                if j < before.len() {
                    assert(before.contains(before[j]));
                }
            }
        }
        if !items.contains(last) {
        } else {
            assert(before.contains(last));
        }
    }
}

/// A longer list of additions gives a list that begins with what a shorter
/// one gives.
pub proof fn lemma_extend_unique_take(items: Seq<usize>, more: Seq<usize>, count: int)
    requires
        0 <= count <= more.len(),
    ensures
        is_prefix(extend_unique(items, more.take(count)), extend_unique(items, more)),
    decreases more.len() - count,
{
    if count < more.len() {
        lemma_extend_unique_take(items, more, count + 1);
        assert(more.take(count + 1).drop_last() == more.take(count));
        assert(more.take(count + 1).last() == more[count]);
    } else {
        assert(more.take(count) == more);
    }
}

/// The more is present, the fewer are absent.
pub proof fn lemma_count_absent_shrinks(items: Seq<usize>, fewer: Seq<usize>, present: Seq<usize>)
    requires
        forall|x: usize| fewer.contains(x) ==> present.contains(x),
    ensures
        count_absent(items, present) <= count_absent(items, fewer),
    decreases items.len(),
{
    if items.len() > 0 {
        lemma_count_absent_shrinks(items.drop_last(), fewer, present);
    }
}

/// Counting over two lists in a row is counting over each and adding up.
pub proof fn lemma_count_absent_concat(first: Seq<usize>, second: Seq<usize>, present: Seq<usize>)
    ensures
        count_absent(first + second, present) == count_absent(first, present) + count_absent(
            second,
            present,
        ),
    decreases second.len(),
{
    if second.len() == 0 {
        assert(first + second == first);
    } else {
        lemma_count_absent_concat(first, second.drop_last(), present);
        assert((first + second).drop_last() == first + second.drop_last());
        assert((first + second).last() == second.last());
    }
}

/// No more bones are gathered than three for each corner.
pub proof fn lemma_gather_bones_len(links: Seq<Seq<usize>>, corners: Seq<usize>)
    requires
        at_most_three_links(links),
        forall|i: int| 0 <= i < corners.len() ==> (#[trigger] corners[i]) < links.len(),
    ensures
        gather_bones(links, corners).len() <= 3 * corners.len(),
    decreases corners.len(),
{
    if corners.len() > 0 {
        lemma_gather_bones_len(links, corners.drop_last());
        assert(corners[corners.len() - 1] < links.len());
    }
}

/// One more corner keeps a mesh sound, keeps its vertices and bones in place,
/// and adds one index.
pub proof fn lemma_add_corner(model: MeshModel, links: Seq<Seq<usize>>, corner: usize)
    requires
        model_sound(model, links),
        at_most_three_links(links),
        corner < links.len(),
    ensures
        model_sound(add_corner(model, links, corner), links),
        add_corner(model, links, corner).vertices == push_unique(model.vertices, corner),
        is_prefix(model.vertices, add_corner(model, links, corner).vertices),
        is_prefix(model.bones, add_corner(model, links, corner).bones),
        add_corner(model, links, corner).indices.len() == model.indices.len() + 1,
        add_corner(model, links, corner).bone_count >= model.bone_count,
{
    let next = add_corner(model, links, corner);
    lemma_extend_unique(model.bones, links[corner as int]);
    if model.vertices.contains(corner) {
        let position = model.vertices.index_of(corner);
        assert forall|i: int| 0 <= i < next.indices.len() implies 0 <= (#[trigger] next.indices[i])
            < next.vertices.len() by {
            if i < model.indices.len() {
                assert(next.indices[i] == model.indices[i]);
            }
        }
    } else {
        assert forall|i: int, j: int|
            0 <= i < next.vertices.len() && 0 <= j < next.vertices.len() && i != j implies next.vertices[i]
            != next.vertices[j] by {
            if i < model.vertices.len() {
                assert(model.vertices.contains(model.vertices[i]));
            }
            if j < model.vertices.len() {
                assert(model.vertices.contains(model.vertices[j]));
            }
        }
        assert forall|i: int| 0 <= i < next.indices.len() implies 0 <= (#[trigger] next.indices[i])
            < next.vertices.len() by {
            if i < model.indices.len() {
                assert(next.indices[i] == model.indices[i]);
            }
        }
        assert forall|j: int| 0 <= j < next.vertices.len() implies (#[trigger] next.vertices[j])
            < links.len() by {
            if j < model.vertices.len() {
                assert(next.vertices[j] == model.vertices[j]);
            }
        }
    }
}

/// A run of corners keeps a mesh sound and keeps its vertices and bones in
/// place. It adds no more vertices than the run has distinct corners that
/// the mesh lacks, and no more bones than those corners have links to bones
/// that the palette lacks.
pub proof fn lemma_add_corners(model: MeshModel, links: Seq<Seq<usize>>, corners: Seq<usize>)
    requires
        model_sound(model, links),
        at_most_three_links(links),
        forall|i: int| 0 <= i < corners.len() ==> (#[trigger] corners[i]) < links.len(),
    ensures
        model_sound(add_corners(model, links, corners), links),
        add_corners(model, links, corners).vertices == extend_unique(model.vertices, corners),
        is_prefix(model.vertices, add_corners(model, links, corners).vertices),
        is_prefix(model.bones, add_corners(model, links, corners).bones),
        add_corners(model, links, corners).indices.len() == model.indices.len() + corners.len(),
        add_corners(model, links, corners).vertices.len() <= model.vertices.len() + count_absent(
            extend_unique(Seq::empty(), corners),
            model.vertices,
        ),
        add_corners(model, links, corners).bones.len() <= model.bones.len() + count_absent(
            gather_bones(links, extend_unique(Seq::empty(), corners)),
            model.bones,
        ),
    decreases corners.len(),
{
    if corners.len() > 0 {
        let init = corners.drop_last();
        let last = corners.last();
        assert(corners[corners.len() - 1] < links.len());
        lemma_add_corners(model, links, init);
        let middle = add_corners(model, links, init);
        let next = add_corners(model, links, corners);
        assert(next == add_corner(middle, links, last));
        lemma_add_corner(middle, links, last);
        let empty = Seq::<usize>::empty();
        let distinct_init = extend_unique(empty, init);
        let distinct = extend_unique(empty, corners);
        assert(distinct == push_unique(distinct_init, last));
        lemma_extend_unique(model.vertices, init);
        lemma_extend_unique(empty, init);
        if middle.vertices.contains(last) {
            if distinct_init.contains(last) {
            } else {
                assert(distinct.drop_last() == distinct_init);
                assert(gather_bones(links, distinct) == gather_bones(links, distinct_init)
                    + links[last as int]);
                lemma_count_absent_concat(
                    gather_bones(links, distinct_init),
                    links[last as int],
                    model.bones,
                );
            }
        } else {
            assert(middle.vertices == extend_unique(model.vertices, init));
            assert(!(model.vertices.contains(last) || init.contains(last)));
            assert(!empty.contains(last));
            assert(!distinct_init.contains(last));
            assert(distinct.drop_last() == distinct_init);
            assert(gather_bones(links, distinct) == gather_bones(links, distinct_init)
                + links[last as int]);
            lemma_count_absent_concat(
                gather_bones(links, distinct_init),
                links[last as int],
                model.bones,
            );
            lemma_extend_unique(middle.bones, links[last as int]);
            assert forall|x: usize| model.bones.contains(x) implies middle.bones.contains(x) by {
                let i = choose|i: int| 0 <= i < model.bones.len() && model.bones[i] == x;
                assert(middle.bones[i] == x);
            }
            lemma_count_absent_shrinks(links[last as int], model.bones, middle.bones);
        }
    }
}

/// Whichever triangles come, every mesh of the partition is within the
/// limits: at most 65536 vertices, at most 53 bones, no bone twice.
pub proof fn lemma_partition_within_limits(
    links: Seq<Seq<usize>>,
    triangles: Seq<Seq<usize>>,
    count: nat,
)
    requires
        at_most_three_links(links),
        triangles_in_range(links, triangles),
        count <= triangles.len(),
    ensures
        model_within_limits(partition(links, triangles, count).1, links),
        forall|m: int|
            0 <= m < partition(links, triangles, count).0.len() ==> model_within_limits(
                #[trigger] partition(links, triangles, count).0[m],
                links,
            ),
        partition(links, triangles, count).0.len() <= count,
    decreases count,
{
    if count > 0 {
        lemma_partition_within_limits(links, triangles, (count - 1) as nat);
        let (closed, open) = partition(links, triangles, (count - 1) as nat);
        let triangle = triangles[count - 1];
        assert(triangle.len() == 3);
        assert forall|i: int| 0 <= i < triangle.len() implies (#[trigger] triangle[i]) < links.len() by {
            assert(triangles[count - 1][i] < links.len());
        }
        let empty = Seq::<usize>::empty();
        let distinct = extend_unique(empty, triangle);
        lemma_extend_unique(empty, triangle);
        if must_split(open, links, triangle) {
            lemma_add_corners(empty_model(), links, triangle);
            assert forall|i: int| 0 <= i < distinct.len() implies (#[trigger] distinct[i]) < links.len() by {
                assert(distinct.contains(distinct[i]));
                assert(!empty.contains(distinct[i]));
                assert(triangle.contains(distinct[i]));
                let j = choose|j: int| 0 <= j < triangle.len() && triangle[j] == distinct[i];
                assert(triangle[j] < links.len());
            }
            lemma_gather_bones_len(links, distinct);
            lemma_extend_unique(empty, distinct);
            lemma_extend_unique(empty, gather_bones(links, distinct));
        } else {
            lemma_add_corners(open, links, triangle);
        }
    }
}

/// Whether a palette lists the bones `bones`, each under its own position.
pub open spec fn palette_matches(palette: Seq<HardwareBone>, bones: Seq<usize>) -> bool {
    &&& palette.len() == bones.len()
    &&& forall|i: int|
        0 <= i < bones.len() ==> (#[trigger] palette[i]).hardware_bone == i
            && palette[i].bone_table_bone == bones[i]
}

/// Puts the bones of a vertex into the palette, as far as it lacks them, and
/// returns the bones and the slots that they have there.
fn place_bones(
    hardware: &mut IndexSet<usize>,
    palette: &mut Vec<HardwareBone>,
    list: &TriangleList,
    corner: usize,
) -> (placed: ([u8; 3], [u8; 3]))
    requires
        ready_for_strips(*list),
        corner < list.vertices@.len(),
        palette_matches(old(palette)@, index_set_items(*old(hardware))),
        extend_unique(index_set_items(*old(hardware)), list.link_bones()[corner as int]).len()
            <= MAX_HARDWARE_BONES_PER_STRIP,
    ensures
        index_set_items(*final(hardware)) == extend_unique(
            index_set_items(*old(hardware)),
            list.link_bones()[corner as int],
        ),
        palette_matches(final(palette)@, index_set_items(*final(hardware))),
        forall|k: int|
            0 <= k < 3 ==> link_placed(
                #[trigger] placed.0@[k],
                placed.1@[k],
                k,
                list.link_bones()[corner as int],
                index_set_items(*final(hardware)),
            ),
{
    let ghost bones = list.link_bones()[corner as int];
    let ghost start = index_set_items(*hardware);
    let count: usize = list.vertices[corner].links.len();
    let mut vertex_bones: [u8; 3] = [0, 0, 0];
    let mut slots: [u8; 3] = [0, 0, 0];
    let mut k: usize = 0;
    assert(bones.take(0) == Seq::<usize>::empty());
    while k < count
        invariant
            ready_for_strips(*list),
            corner < list.vertices@.len(),
            bones == list.link_bones()[corner as int],
            count == bones.len(),
            count <= 3,
            k <= count,
            index_set_items(*hardware) == extend_unique(start, bones.take(k as int)),
            palette_matches(palette@, index_set_items(*hardware)),
            extend_unique(start, bones).len() <= MAX_HARDWARE_BONES_PER_STRIP,
            forall|i: int|
                0 <= i < 3 ==> link_placed(
                    #[trigger] vertex_bones@[i],
                    slots@[i],
                    i,
                    bones.take(k as int),
                    index_set_items(*hardware),
                ),
        decreases count - k,
    {
        let bone: usize = list.vertices[corner].links[k].bone;
        let ghost before = index_set_items(*hardware);
        proof {
            assert(bone == bones[k as int]);
            assert(bones.take(k + 1).drop_last() == bones.take(k as int));
            assert(bones.take(k + 1).last() == bone);
            lemma_extend_unique_take(start, bones, k + 1);
            lemma_extend_unique(before, seq![bone]);
        }
        let ghost earlier_bones = vertex_bones@;
        let ghost earlier_slots = slots@;
        let placed = index_set_insert_full(hardware, bone);
        proof {
            let after = index_set_items(*hardware);
            assert(after == push_unique(before, bone));
            assert(after == extend_unique(start, bones.take(k + 1)));
            assert(is_prefix(before, after));
            assert(after.len() <= MAX_HARDWARE_BONES_PER_STRIP);
            assert(list.vertices@[corner as int].links@[k as int].bone <= u8::MAX);
        }
        vertex_bones[k] = bone as u8;
        slots[k] = placed.0 as u8;
        if placed.1 {
            palette.push(HardwareBone { hardware_bone: placed.0 as i32, bone_table_bone: bone as i32 });
        }
        proof {
            assert(vertex_bones@ == earlier_bones.update(k as int, bone as u8));
            assert(slots@ == earlier_slots.update(k as int, placed.0 as u8));
            assert forall|i: int| 0 <= i < 3 implies link_placed(
                #[trigger] vertex_bones@[i],
                slots@[i],
                i,
                bones.take(k + 1),
                index_set_items(*hardware),
            ) by {
                assert(link_placed(
                    earlier_bones[i],
                    earlier_slots[i],
                    i,
                    bones.take(k as int),
                    before,
                ));
            }
        }
        k += 1;
    }
    proof {
        assert(bones.take(count as int) == bones);
    }
    (vertex_bones, slots)
}

/// A mesh under construction, with the tables that find a vertex and a bone
/// again.
struct OpenMesh {
    vertex_data: Vec<Vertex>,
    vertices: Vec<MeshVertex>,
    indices: Vec<u16>,
    strip: Strip,
    mapped: IndexMap<usize, usize>,
    hardware: IndexSet<usize>,
}

impl OpenMesh {
    /// Whether the mesh is what the model says, within the limits, and the
    /// tables find what the model holds.
    spec fn holds(&self, model: MeshModel, links: Seq<Seq<usize>>) -> bool {
        &&& parts_match(
            self.vertex_data@,
            self.vertices@,
            self.indices@,
            self.strip,
            model,
            links,
        )
        &&& model_within_limits(model, links)
        &&& forall|c: usize| #[trigger]
            index_map_entries(self.mapped).contains_key(c) <==> model.vertices.contains(c)
        &&& forall|c: usize|
            index_map_entries(self.mapped).contains_key(c) ==> (#[trigger] index_map_entries(
                self.mapped,
            )[c]) < model.vertices.len() && model.vertices[index_map_entries(self.mapped)[c] as int]
                == c
        &&& index_set_items(self.hardware) == model.bones
    }

    fn new(Ghost(links): Ghost<Seq<Seq<usize>>>) -> (created: Self)
        ensures
            created.holds(empty_model(), links),
    {
        OpenMesh {
            vertex_data: Vec::new(),
            vertices: Vec::new(),
            indices: Vec::new(),
            strip: Strip {
                indices_count: 0,
                indices_offset: 0,
                vertex_count: 0,
                vertex_offset: 0,
                bone_count: 0,
                hardware_bones: Vec::new(),
            },
            mapped: index_map_new(),
            hardware: index_set_new(),
        }
    }

    fn close(self, material: i32, Ghost(model): Ghost<MeshModel>, Ghost(links): Ghost<
        Seq<Seq<usize>>,
    >) -> (mesh: Mesh)
        requires
            self.holds(model, links),
        ensures
            mesh_matches(mesh, model, material as int, links),
            model_within_limits(model, links),
    {
        let mut strips: Vec<Strip> = Vec::new();
        strips.push(self.strip);
        let mut strip_groups: Vec<StripGroup> = Vec::new();
        strip_groups.push(StripGroup { vertices: self.vertices, indices: self.indices, strips });
        Mesh { material, vertex_data: self.vertex_data, strip_groups }
    }

    fn add_corner(&mut self, list: &TriangleList, corner: usize, Ghost(model): Ghost<MeshModel>)
        requires
            ready_for_strips(*list),
            corner < list.vertices@.len(),
            old(self).holds(model, list.link_bones()),
            model_within_limits(add_corner(model, list.link_bones(), corner), list.link_bones()),
        ensures
            final(self).holds(add_corner(model, list.link_bones(), corner), list.link_bones()),
    {
        let ghost links = list.link_bones();
        let ghost next = add_corner(model, links, corner);
        match index_map_get(&self.mapped, corner) {
            Some(position) => {
                proof {
                    assert(index_map_entries(self.mapped).contains_key(corner));
                    assert(model.vertices.contains(corner));
                    let chosen = model.vertices.index_of(corner);
                    assert(model.vertices[chosen] == corner);
                    assert(chosen == position);
                }
                self.indices.push(position as u16);
                self.strip.indices_count = self.strip.indices_count + 1;
                proof {
                    assert forall|j: int| 0 <= j < next.vertices.len() implies vertex_matches(
                        #[trigger] self.vertex_data@[j],
                        self.vertices@[j],
                        j,
                        next,
                        links,
                    ) by {
                        assert(vertex_matches(
                            old(self).vertex_data@[j],
                            old(self).vertices@[j],
                            j,
                            model,
                            links,
                        ));
                    }
                }
            },
            None => {
                proof {
                    assert(!index_map_entries(self.mapped).contains_key(corner));
                    assert(!model.vertices.contains(corner));
                    lemma_extend_unique(model.bones, links[corner as int]);
                }
                let count: usize = list.vertices[corner].links.len();
                let position: usize = self.vertices.len();
                let placed = place_bones(
                    &mut self.hardware,
                    &mut self.strip.hardware_bones,
                    list,
                    corner,
                );
                if (count as i16) > self.strip.bone_count {
                    self.strip.bone_count = count as i16;
                }
                self.vertex_data.push(
                    Vertex { bones: placed.0, bone_count: count as u8, source: corner },
                );
                self.vertices.push(
                    MeshVertex {
                        bone_count: count as u8,
                        vertex_index: position as u16,
                        bones: placed.1,
                    },
                );
                self.indices.push(position as u16);
                let _ = index_map_insert(&mut self.mapped, corner, position);
                self.strip.indices_count = self.strip.indices_count + 1;
                self.strip.vertex_count = self.strip.vertex_count + 1;
                proof {
                    assert(next.vertices == model.vertices.push(corner));
                    assert forall|j: int| 0 <= j < next.vertices.len() implies vertex_matches(
                        #[trigger] self.vertex_data@[j],
                        self.vertices@[j],
                        j,
                        next,
                        links,
                    ) by {
                        let bones = links[next.vertices[j] as int];
                        if j < model.vertices.len() {
                            assert(vertex_matches(
                                old(self).vertex_data@[j],
                                old(self).vertices@[j],
                                j,
                                model,
                                links,
                            ));
                            assert(self.vertex_data@[j] == old(self).vertex_data@[j]);
                            assert(self.vertices@[j] == old(self).vertices@[j]);
                            assert(is_prefix(model.bones, next.bones));
                        } else {
                            assert(j == model.vertices.len());
                            assert(next.vertices[j] == corner);
                            assert(bones.len() == count);
                            assert(self.vertex_data@[j].bones == placed.0);
                            assert(self.vertices@[j].bones == placed.1);
                            assert(index_set_items(self.hardware) == next.bones);
                            assert(link_placed(placed.0@[0], placed.1@[0], 0, bones, next.bones));
                            assert(link_placed(placed.0@[1], placed.1@[1], 1, bones, next.bones));
                            assert(link_placed(placed.0@[2], placed.1@[2], 2, bones, next.bones));
                        }
                    }
                    assert forall|c: usize| #[trigger]
                        index_map_entries(self.mapped).contains_key(c)
                        <==> next.vertices.contains(c) by {
                        if c == corner {
                            assert(next.vertices[model.vertices.len() as int] == corner);
                        } else {
                            if model.vertices.contains(c) {
                                let i = choose|i: int|
                                    0 <= i < model.vertices.len() && model.vertices[i] == c;
                                assert(next.vertices[i] == c);
                            }
                            if next.vertices.contains(c) {
                                let i = choose|i: int|
                                    0 <= i < next.vertices.len() && next.vertices[i] == c;
                                assert(model.vertices[i] == c);
                            }
                        }
                    }
                }
            },
        }
    }
}

/// How many of the bones of a vertex the palette lacks.
fn count_new_bones(hardware: &IndexSet<usize>, list: &TriangleList, corner: usize) -> (count: usize)
    requires
        ready_for_strips(*list),
        corner < list.vertices@.len(),
    ensures
        count == count_absent(list.link_bones()[corner as int], index_set_items(*hardware)),
        count <= 3,
{
    let ghost bones = list.link_bones()[corner as int];
    let total: usize = list.vertices[corner].links.len();
    let mut count: usize = 0;
    let mut k: usize = 0;
    assert(bones.take(0) == Seq::<usize>::empty());
    while k < total
        invariant
            corner < list.vertices@.len(),
            bones == list.link_bones()[corner as int],
            total == bones.len(),
            total <= 3,
            k <= total,
            count <= k,
            count == count_absent(bones.take(k as int), index_set_items(*hardware)),
        decreases total - k,
    {
        let bone: usize = list.vertices[corner].links[k].bone;
        proof {
            assert(bone == bones[k as int]);
            assert(bones.take(k + 1).drop_last() == bones.take(k as int));
            assert(bones.take(k + 1).last() == bone);
        }
        if index_set_get_index_of(hardware, bone).is_none() {
            count += 1;
        }
        k += 1;
    }
    proof {
        assert(bones.take(total as int) == bones);
    }
    count
}

/// Whether the next triangle has to start a new mesh.
fn needs_split(open: &OpenMesh, list: &TriangleList, triangle: &[usize; 3], Ghost(model): Ghost<
    MeshModel,
>) -> (split: bool)
    requires
        ready_for_strips(*list),
        open.holds(model, list.link_bones()),
        forall|c: int| 0 <= c < 3 ==> (#[trigger] triangle@[c]) < list.vertices@.len(),
    ensures
        split == must_split(model, list.link_bones(), triangle@),
{
    let ghost links = list.link_bones();
    let ghost empty = Seq::<usize>::empty();
    let mut distinct = index_set_new();
    let _ = index_set_insert_full(&mut distinct, triangle[0]);
    let _ = index_set_insert_full(&mut distinct, triangle[1]);
    let _ = index_set_insert_full(&mut distinct, triangle[2]);
    let ghost corners = index_set_items(distinct);
    proof {
        let all = triangle@;
        assert(all.len() == 3);
        assert(all.take(0) == empty);
        assert(all.take(1).drop_last() == all.take(0));
        assert(all.take(2).drop_last() == all.take(1));
        assert(all.take(3).drop_last() == all.take(2));
        assert(all.take(3) == all);
        assert(all.take(1).last() == all[0]);
        assert(all.take(2).last() == all[1]);
        assert(all.take(3).last() == all[2]);
        assert(extend_unique(empty, all.take(0)) == empty);
        assert(extend_unique(empty, all.take(1)) == push_unique(empty, all[0]));
        assert(extend_unique(empty, all.take(2)) == push_unique(
            extend_unique(empty, all.take(1)),
            all[1],
        ));
        assert(corners == extend_unique(empty, all));
        lemma_extend_unique(empty, all);
        assert forall|i: int| 0 <= i < corners.len() implies (#[trigger] corners[i])
            < list.vertices@.len() by {
            assert(corners.contains(corners[i]));
            assert(!empty.contains(corners[i]));
            assert(all.contains(corners[i]));
            let j = choose|j: int| 0 <= j < all.len() && all[j] == corners[i];
            assert(triangle@[j] < list.vertices@.len());
        }
    }
    let total: usize = index_set_len(&distinct);
    let mut new_indices: usize = 0;
    let mut new_bones: usize = 0;
    let mut i: usize = 0;
    assert(corners.take(0) == empty);
    while i < total
        invariant
            ready_for_strips(*list),
            open.holds(model, list.link_bones()),
            links == list.link_bones(),
            corners == index_set_items(distinct),
            total == corners.len(),
            total <= 3,
            i <= total,
            forall|j: int| 0 <= j < corners.len() ==> (#[trigger] corners[j]) < list.vertices@.len(),
            new_indices == count_absent(corners.take(i as int), model.vertices),
            new_indices <= i,
            new_bones == count_absent(gather_bones(links, corners.take(i as int)), model.bones),
            new_bones <= 3 * i,
        decreases total - i,
    {
        let corner: usize = match index_set_get_index(&distinct, i) {
            Some(corner) => corner,
            None => vstd::pervasive::unreached(),
        };
        proof {
            assert(corner == corners[i as int]);
            assert(corners.take(i + 1).drop_last() == corners.take(i as int));
            assert(corners.take(i + 1).last() == corner);
            lemma_count_absent_concat(
                gather_bones(links, corners.take(i as int)),
                links[corner as int],
                model.bones,
            );
        }
        if index_map_get(&open.mapped, corner).is_none() {
            new_indices += 1;
        }
        let added: usize = count_new_bones(&open.hardware, list, corner);
        new_bones += added;
        i += 1;
    }
    proof {
        assert(corners.take(total as int) == corners);
    }
    open.vertices.len() + new_indices > MAX_STRIP_GROUP_VERTICES || index_set_len(&open.hardware)
        + new_bones > MAX_HARDWARE_BONES_PER_STRIP || open.indices.len() > 0x7FFF_FFFF - 3
}

/// Cuts a triangle list into meshes. Triangles go into the current mesh in
/// order; one that would take the vertices beyond the index space or the
/// bones beyond the palette closes the mesh and starts the next.
pub fn finalize_triangle_list(material_index: usize, triangle_list: &TriangleList) -> (meshes: Vec<
    Mesh,
>)
    requires
        ready_for_strips(*triangle_list),
        material_index <= i32::MAX,
    ensures
        meshes@.len() == mesh_models(triangle_list.link_bones(), triangle_list.corners()).len(),
        forall|m: int|
            0 <= m < meshes@.len() ==> mesh_matches(
                #[trigger] meshes@[m],
                mesh_models(triangle_list.link_bones(), triangle_list.corners())[m],
                material_index as int,
                triangle_list.link_bones(),
            ),
        forall|m: int|
            0 <= m < meshes@.len() ==> (#[trigger] meshes@[m]).strip_groups@[0].vertices@.len()
                <= MAX_STRIP_GROUP_VERTICES
                && meshes@[m].strip_groups@[0].strips@[0].hardware_bones@.len()
                <= MAX_HARDWARE_BONES_PER_STRIP,
{
    let ghost links = triangle_list.link_bones();
    let ghost corners = triangle_list.corners();
    let material: i32 = material_index as i32;
    let mut meshes: Vec<Mesh> = Vec::new();
    let mut open = OpenMesh::new(Ghost(links));
    let mut t: usize = 0;
    proof {
        lemma_ready(*triangle_list);
    }
    while t < triangle_list.triangles.len()
        invariant
            ready_for_strips(*triangle_list),
            links == triangle_list.link_bones(),
            corners == triangle_list.corners(),
            at_most_three_links(links),
            triangles_in_range(links, corners),
            material == material_index,
            t <= triangle_list.triangles@.len(),
            open.holds(partition(links, corners, t as nat).1, links),
            meshes@.len() == partition(links, corners, t as nat).0.len(),
            forall|m: int|
                0 <= m < meshes@.len() ==> mesh_matches(
                    #[trigger] meshes@[m],
                    partition(links, corners, t as nat).0[m],
                    material_index as int,
                    links,
                ) && model_within_limits(partition(links, corners, t as nat).0[m], links),
        decreases triangle_list.triangles@.len() - t,
    {
        let triangle: [usize; 3] = triangle_list.triangles[t];
        let ghost before = partition(links, corners, t as nat);
        let ghost after = partition(links, corners, (t + 1) as nat);
        proof {
            assert(triangle@ == corners[t as int]);
            assert forall|c: int| 0 <= c < 3 implies (#[trigger] triangle@[c])
                < triangle_list.vertices@.len() by {
                assert(triangle_list.triangles@[t as int]@[c] < triangle_list.vertices@.len());
            }
            lemma_partition_within_limits(links, corners, t as nat);
            lemma_partition_within_limits(links, corners, (t + 1) as nat);
        }
        let split = needs_split(&open, triangle_list, &triangle, Ghost(before.1));
        if split {
            let closed = open.close(material, Ghost(before.1), Ghost(links));
            meshes.push(closed);
            open = OpenMesh::new(Ghost(links));
        }
        let ghost start = if split { empty_model() } else { before.1 };
        let ghost first = add_corner(start, links, triangle@[0]);
        let ghost second = add_corner(first, links, triangle@[1]);
        let ghost third = add_corner(second, links, triangle@[2]);
        proof {
            let all = triangle@;
            assert(all.take(3) == all);
            assert(all.take(3).drop_last() == all.take(2));
            assert(all.take(2).drop_last() == all.take(1));
            assert(all.take(1).drop_last() == all.take(0));
            assert(all.take(0).len() == 0);
            assert(all.take(1).last() == all[0]);
            assert(all.take(2).last() == all[1]);
            assert(all.take(3).last() == all[2]);
            assert(add_corners(start, links, all.take(0)) == start);
            assert(add_corners(start, links, all.take(1)) == first);
            assert(add_corners(start, links, all.take(2)) == second);
            assert(add_corners(start, links, all) == third);
            assert(after.1 == third);
            assert(model_sound(start, links));
            lemma_add_corner(start, links, all[0]);
            lemma_add_corner(first, links, all[1]);
            lemma_add_corner(second, links, all[2]);
            assert(model_within_limits(third, links));
            assert(first.indices.len() <= third.indices.len());
            assert(second.indices.len() <= third.indices.len());
            assert(model_within_limits(first, links));
            assert(model_within_limits(second, links));
        }
        open.add_corner(triangle_list, triangle[0], Ghost(start));
        open.add_corner(triangle_list, triangle[1], Ghost(first));
        open.add_corner(triangle_list, triangle[2], Ghost(second));
        proof {
            assert forall|m: int| 0 <= m < meshes@.len() implies mesh_matches(
                #[trigger] meshes@[m],
                after.0[m],
                material_index as int,
                links,
            ) && model_within_limits(after.0[m], links) by {
                if m < before.0.len() {
                    assert(after.0[m] == before.0[m]);
                }
            }
        }
        t += 1;
    }
    let ghost last = partition(links, corners, t as nat);
    let closed = open.close(material, Ghost(last.1), Ghost(links));
    meshes.push(closed);
    proof {
        let models = mesh_models(links, corners);
        assert(corners.len() == t);
        assert(models == last.0.push(last.1));
        assert forall|m: int| 0 <= m < meshes@.len() implies mesh_matches(
            #[trigger] meshes@[m],
            models[m],
            material_index as int,
            links,
        ) && model_within_limits(models[m], links) by {
            if m < last.0.len() {
                assert(models[m] == last.0[m]);
            }
        }
    }
    meshes
}

/// A list that is ready for strips has at most three links at each vertex,
/// and triangles of three corners within the list.
pub proof fn lemma_ready(list: TriangleList)
    requires
        ready_for_strips(list),
    ensures
        at_most_three_links(list.link_bones()),
        triangles_in_range(list.link_bones(), list.corners()),
{
    let links = list.link_bones();
    let corners = list.corners();
    assert forall|v: int| 0 <= v < links.len() implies (#[trigger] links[v]).len() <= 3 by {
        assert(list.vertices@[v].links@.len() <= 3);
    }
    assert forall|t: int| 0 <= t < corners.len() implies (#[trigger] corners[t]).len() == 3
        && forall|c: int| 0 <= c < 3 ==> (#[trigger] corners[t][c]) < links.len() by {
        assert(corners[t] == list.triangles@[t]@);
        assert forall|c: int| 0 <= c < 3 implies (#[trigger] corners[t][c]) < links.len() by {
            assert(list.triangles@[t]@[c] < list.vertices@.len());
        }
    }
}

} // verus!
