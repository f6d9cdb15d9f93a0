//! Moving the links of vertices from the bones of a file to the bones of
//! the model.

use crate::import::FileData;
use crate::names::NameMap;
use crate::process::Bone;
use crate::process::links::{
    lemma_merged_links, limit_vertex_links, link_views, links_kept, map_import_bones, mapped_bone,
    merged_links, remap_vertex_links,
};
use crate::process::mesh::{Measure, TriangleList, TriangleVertex};
use crate::process::strips::links_ready;
use vstd::prelude::*;

verus! {

/// The processed bone for each bone of a file.
pub open spec fn bone_remap(file: FileData, processed: Seq<Seq<char>>) -> Seq<usize> {
    Seq::new(file.skeleton.names().len(), |b: int| mapped_bone(file, processed, b))
}

/// Whether a vertex is what the remap makes of another: the same imported
/// vertex, with its links moved to the bones of the model, merged, cut down
/// to three and put in the order of their bones.
pub open spec fn links_remapped(after: TriangleVertex, before: TriangleVertex, remap: Seq<usize>) -> bool {
    &&& after.part == before.part
    &&& after.vertex == before.vertex
    &&& links_kept(
        link_views(after.links@),
        merged_links(link_views(before.links@), remap, before.links@.len() as int),
    )
}

/// A vertex that had a link has one to three links after the remap, to
/// bones that ascend.
pub proof fn lemma_remapped_links(after: TriangleVertex, before: TriangleVertex, remap: Seq<usize>)
    requires
        links_remapped(after, before, remap),
        before.links@.len() >= 1,
    ensures
        1 <= after.links@.len() <= 3,
        forall|k: int|
            0 <= k < after.links@.len() - 1 ==> (#[trigger] after.links@[k]).bone < after.links@[k
                + 1].bone,
{
    lemma_merged_links(link_views(before.links@), remap, before.links@.len() as int);
    assert forall|k: int| 0 <= k < after.links@.len() - 1 implies (#[trigger] after.links@[k]).bone
        < after.links@[k + 1].bone by {
        assert(link_views(after.links@)[k].bone < link_views(after.links@)[k + 1].bone);
    }
}

/// How many of the first `count` vertices lose a link in the remap.
pub open spec fn culled_count(vertices: Seq<TriangleVertex>, remap: Seq<usize>, count: int) -> nat
    decreases count,
{
    if count <= 0 {
        0
    } else {
        culled_count(vertices, remap, count - 1) + if merged_links(
            link_views(vertices[count - 1].links@),
            remap,
            vertices[count - 1].links@.len() as int,
        ).len() > 3 {
            1nat
        } else {
            0nat
        }
    }
}

/// Moves the links of the vertices of a list from the bones of the file to
/// the bones of the model. Links of one vertex that come to the same bone
/// are merged; of more than three links the three heaviest are kept; the
/// links of a vertex end up in the order of their bones. Returns the
/// number of vertices that lost a link.
pub fn vertices_remap_links<M: Measure>(
    triangle_list: &mut TriangleList,
    import_file: &FileData,
    processed_bones: &NameMap<Bone>,
    measure: &M,
) -> (culled: usize)
    ensures
        final(triangle_list).triangles == old(triangle_list).triangles,
        final(triangle_list).vertices@.len() == old(triangle_list).vertices@.len(),
        forall|v: int|
            0 <= v < old(triangle_list).vertices@.len() ==> links_remapped(
                #[trigger] final(triangle_list).vertices@[v],
                old(triangle_list).vertices@[v],
                bone_remap(*import_file, processed_bones.names()),
            ),
        culled == culled_count(
            old(triangle_list).vertices@,
            bone_remap(*import_file, processed_bones.names()),
            old(triangle_list).vertices@.len() as int,
        ),
        processed_bones.names().len() <= 256 ==> links_ready(final(triangle_list).vertices@),
{
    let remap = map_import_bones(import_file, processed_bones);
    let ghost table = bone_remap(*import_file, processed_bones.names());
    assert(remap@ =~= table);
    let ghost before = triangle_list.vertices@;
    let mut vertices: Vec<TriangleVertex> = Vec::new();
    let mut culled: usize = 0;
    let mut v: usize = 0;
    while v < triangle_list.vertices.len()
        invariant
            v <= before.len(),
            before == triangle_list.vertices@,
            triangle_list.triangles == old(triangle_list).triangles,
            remap@ == table,
            forall|b: int|
                0 <= b < remap@.len() ==> (#[trigger] remap@[b]) < processed_bones.names().len()
                    || remap@[b] == 0,
            vertices@.len() == v,
            culled == culled_count(before, table, v as int),
            culled <= v,
            forall|i: int| 0 <= i < v ==> links_remapped(#[trigger] vertices@[i], before[i], table),
            processed_bones.names().len() <= 256 ==> links_ready(vertices@),
        decreases before.len() - v,
    {
        let vertex = &triangle_list.vertices[v];
        let merged = remap_vertex_links(&vertex.links, &remap);
        let order = measure.rank_links(vertex, &merged);
        proof {
            lemma_merged_links(link_views(vertex.links@), table, vertex.links@.len() as int);
        }
        let limited = limit_vertex_links(&merged, &order);
        if limited.1 {
            culled += 1;
        }
        let ghost kept = limited.0@;
        let ghost held = vertices@;
        vertices.push(TriangleVertex { part: vertex.part, vertex: vertex.vertex, links: limited.0 });
        proof {
            if processed_bones.names().len() <= 256 {
                assert forall|k: int| 0 <= k < kept.len() implies (#[trigger] kept[k]).bone
                    <= u8::MAX by {
                    let views = link_views(kept);
                    let all = link_views(merged@);
                    assert(all.contains(views[k]));
                    let m = choose|m: int| 0 <= m < all.len() && all[m] == views[k];
                    assert(all[m].bone <= u8::MAX);
                    assert(views[k].bone == kept[k].bone);
                }
                let after = vertices@;
                assert forall|i: int| 0 <= i < after.len() implies (#[trigger] after[i]).links@.len()
                    <= 3 by {
                    if i < held.len() {
                        assert(after[i] == held[i]);
                    }
                }
                assert forall|i: int, k: int|
                    0 <= i < after.len() && 0 <= k < after[i].links@.len() implies (
                #[trigger] after[i].links@[k]).bone <= u8::MAX by {
                    if i < held.len() {
                        assert(after[i] == held[i]);
                    } else {
                        assert(after[i].links@[k] == kept[k]);
                    }
                }
            }
        }
        v += 1;
    }
    triangle_list.vertices = vertices;
    culled
}

} // verus!
